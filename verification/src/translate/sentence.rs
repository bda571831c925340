//! Sentence segmentation used before text is sent for translation.

use vstd::prelude::*;

use crate::text::{
    char_views,    lemma_non_ws_add, lemma_non_ws_trim, lemma_trim_ends, non_ws,
    all_ws, chars_of, is_whitespace, is_ws, lemma_trim_empty_iff_all_ws, lemma_trim_start_props, skip_ws, string_from_chars, trim,
    trim_range, trim_start,
};

verus! {

/// Sentence-ending punctuation: `.`, `!`, `?` and the Devanagari danda `।`.
pub open spec fn is_delim(c: char) -> bool {
    c == '.' || c == '!' || c == '?' || c == '\u{0964}'
}

/// Position `i` is a sentence boundary when it holds whitespace that directly
/// follows sentence-ending punctuation.
pub open spec fn is_boundary(t: Seq<char>, i: int) -> bool {
    1 <= i < t.len() && is_ws(t[i]) && is_delim(t[i - 1])
}

/// The first boundary at or after `i`, or `t.len()` when there is none.
pub open spec fn first_boundary_from(t: Seq<char>, i: int) -> int
    decreases t.len() - i,
{
    if i >= t.len() {
        t.len() as int
    } else if is_boundary(t, i) {
        i
    } else {
        first_boundary_from(t, i + 1)
    }
}

/// A one-element list holding `p`, or the empty list when `p` is empty.
pub open spec fn piece(p: Seq<char>) -> Seq<Seq<char>> {
    if p.len() == 0 {
        seq![]
    } else {
        seq![p]
    }
}

/// The text cut at every boundary: each piece is trimmed, empty pieces are
/// dropped, and the whitespace run at a boundary separates two pieces.
pub open spec fn sentence_parts(t: Seq<char>) -> Seq<Seq<char>>
    decreases t.len(),
{
    let b = first_boundary_from(t, 1);
    if b >= t.len() {
        piece(trim(t))
    } else {
        proof {
            lemma_first_boundary_range(t, 1);
            lemma_trim_start_props(t.skip(b));
        }
        piece(trim(t.take(b))) + sentence_parts(trim_start(t.skip(b)))
    }
}

/// Joins a fragment to the previous sentence with one space.
pub open spec fn join_with_space(a: Seq<char>, b: Seq<char>) -> Seq<char> {
    a + seq![' '] + b
}

/// Merges every part shorter than five characters into the sentence before
/// it (a short first part stays on its own).
pub open spec fn merge_short(parts: Seq<Seq<char>>) -> Seq<Seq<char>>
    decreases parts.len(),
{
    if parts.len() == 0 {
        seq![]
    } else {
        let m = merge_short(parts.drop_last());
        let p = parts.last();
        if p.len() < 5 && m.len() > 0 {
            m.update(m.len() - 1, join_with_space(m.last(), p))
        } else {
            m.push(p)
        }
    }
}

/// The views of a list of strings.
pub open spec fn views(v: Seq<String>) -> Seq<Seq<char>> {
    v.map_values(|s: String| s@)
}

pub proof fn lemma_first_boundary_range(t: Seq<char>, i: int)
    requires
        i >= 1,
    ensures
        i <= first_boundary_from(t, i) || first_boundary_from(t, i) == t.len(),
        first_boundary_from(t, i) <= t.len() || i > t.len(),
        first_boundary_from(t, i) < t.len() ==> is_boundary(t, first_boundary_from(t, i)),
        forall|j: int| i <= j < first_boundary_from(t, i) ==> !#[trigger] is_boundary(t, j),
    decreases t.len() - i,
{
    if i < t.len() && !is_boundary(t, i) {
        lemma_first_boundary_range(t, i + 1);
    }
}

/// Whether `c` ends a sentence (`.`, `!`, `?` or `।`).
pub fn is_sentence_delimiter(c: char) -> (b: bool)
    ensures
        b == is_delim(c),
{
    c == '.' || c == '!' || c == '?' || c == '\u{0964}'
}

/// The first boundary of `t[start..]`, in the coordinates of `t`.
fn find_boundary(t: &Vec<char>, start: usize) -> (b: usize)
    requires
        start <= t.len(),
    ensures
        start <= b <= t.len(),
        b == start + first_boundary_from(t@.skip(start as int), 1),
{
    let ghost u = t@.skip(start as int);
    if start >= t.len() {
        return t.len();
    }
    let mut i = start + 1;
    while i < t.len()
        invariant
            start < i <= t.len(),
            u == t@.skip(start as int),
            first_boundary_from(u, 1) == first_boundary_from(u, i - start),
        decreases t.len() - i,
    {
        assert(u[i - start] == t@[i as int]);
        assert(u[i - start - 1] == t@[i - 1]);
        if is_whitespace(t[i]) && is_sentence_delimiter(t[i - 1]) {
            return i;
        }
        i = i + 1;
    }
    i
}

/// The pieces of `t` (see `sentence_parts`), as character vectors.
fn sentence_pieces(t: &Vec<char>) -> (parts: Vec<Vec<char>>)
    ensures
        char_views(parts@) == sentence_parts(t@),
{
    let mut parts: Vec<Vec<char>> = Vec::new();
    let mut start: usize = 0;
    assert(t@.skip(0) =~= t@);
    loop
        invariant
            start <= t.len(),
            char_views(parts@) + sentence_parts(t@.skip(start as int)) == sentence_parts(t@),
        decreases t.len() - start,
    {
        let ghost u = t@.skip(start as int);
        let b = find_boundary(t, start);
        proof {
            lemma_first_boundary_range(u, 1);
        }
        let ghost before = parts@;
        if b >= t.len() {
            let rest = trim_range(t, start, t.len());
            assert(t@.subrange(start as int, t.len() as int) =~= u);
            if rest.len() > 0 {
                parts.push(rest);
            }
            assert(char_views(parts@) =~= char_views(before) + piece(trim(u)));
            assert(char_views(parts@) + seq![] =~= char_views(parts@));
            return parts;
        }
        let part = trim_range(t, start, b);
        assert(t@.subrange(start as int, b as int) =~= u.take(b - start));
        let next = skip_ws(t, b);
        assert(t@.skip(b as int) =~= u.skip(b - start));
        if part.len() > 0 {
            parts.push(part);
        }
        assert(char_views(parts@) =~= char_views(before) + piece(trim(u.take(b - start))));
        assert(sentence_parts(u) == piece(trim(u.take(b - start))) + sentence_parts(
            t@.skip(next as int),
        ));
        assert(char_views(parts@) + sentence_parts(t@.skip(next as int)) =~= char_views(before)
            + sentence_parts(u));
        start = next;
    }
}

/// Strings holding the given character vectors.
fn strings_from(v: &Vec<Vec<char>>) -> (r: Vec<String>)
    ensures
        views(r@) == char_views(v@),
{
    let mut r: Vec<String> = Vec::new();
    let mut i: usize = 0;
    while i < v.len()
        invariant
            i <= v.len(),
            views(r@) == char_views(v@.take(i as int)),
        decreases v.len() - i,
    {
        let s = string_from_chars(v[i].as_slice());
        assert(s@ == v@[i as int]@);
        let ghost before = r@;
        r.push(s);
        assert(views(r@) =~= views(before).push(s@));
        assert(char_views(v@.take(i as int + 1)) =~= char_views(v@.take(i as int)).push(
            v@[i as int]@,
        ));
        i = i + 1;
    }
    assert(v@.take(v.len() as int) =~= v@);
    r
}

/// Cuts `text` at every whitespace run that follows sentence-ending
/// punctuation; the pieces are trimmed and empty ones are dropped.
pub fn split_on_sentence_boundaries(text: &str) -> (parts: Vec<String>)
    ensures
        views(parts@) == sentence_parts(text@),
{
    let t = chars_of(text);
    let pieces = sentence_pieces(&t);
    strings_from(&pieces)
}

/// Text made only of whitespace has no sentence parts.
pub proof fn lemma_blank_has_no_parts(t: Seq<char>)
    requires
        all_ws(t),
    ensures
        sentence_parts(t) == Seq::<Seq<char>>::empty(),
{
    lemma_first_boundary_range(t, 1);
    let b = first_boundary_from(t, 1);
    if b < t.len() {
        assert(is_ws(t[b - 1]));
    }
    lemma_trim_empty_iff_all_ws(t);
}

/// Splits `text` into sentences: the text is cut after sentence-ending
/// punctuation that is followed by whitespace, every sentence is trimmed, and
/// a fragment of fewer than five characters is appended (after one space) to
/// the sentence before it. Blank text gives no sentences.
pub fn split_sentences(text: &str) -> (sentences: Vec<String>)
    ensures
        views(sentences@) == merge_short(sentence_parts(text@)),
        all_ws(text@) ==> sentences@.len() == 0,
{
    let t = chars_of(text);
    if skip_ws(&t, 0) == t.len() {
        proof {
            assert(t@.skip(0) =~= t@);
            assert(all_ws(t@));
            lemma_blank_has_no_parts(t@);
        }
        return Vec::new();
    }
    let parts = sentence_pieces(&t);
    let mut merged: Vec<Vec<char>> = Vec::new();
    let mut i: usize = 0;
    while i < parts.len()
        invariant
            i <= parts.len(),
            char_views(parts@) == sentence_parts(t@),
            char_views(merged@) == merge_short(char_views(parts@).take(i as int)),
        decreases parts.len() - i,
    {
        let ghost ps = char_views(parts@).take(i as int + 1);
        assert(ps.drop_last() =~= char_views(parts@).take(i as int));
        assert(ps.last() == parts@[i as int]@);
        if parts[i].len() < 5 && merged.len() > 0 {
            let last = merged.len() - 1;
            let mut joined = merged[last].clone();
            joined.push(' ');
            let mut j: usize = 0;
            while j < parts[i].len()
                invariant
                    i < parts.len(),
                    j <= parts[i as int].len(),
                    last < merged.len(),
                    joined@ == merged@[last as int]@ + seq![' '] + parts@[i as int]@.take(
                        j as int,
                    ),
                decreases parts[i as int].len() - j,
            {
                joined.push(parts[i][j]);
                j = j + 1;
                assert(joined@ =~= merged@[last as int]@ + seq![' '] + parts@[i as int]@.take(
                    j as int,
                ));
            }
            assert(parts@[i as int]@.take(j as int) =~= parts@[i as int]@);
            let ghost before = merged@;
            merged.set(last, joined);
            assert(char_views(merged@) =~= char_views(before).update(
                last as int,
                join_with_space(char_views(before).last(), ps.last()),
            ));
        } else {
            let ghost before = merged@;
            merged.push(parts[i].clone());
            assert(char_views(merged@) =~= char_views(before).push(ps.last()));
        }
        i = i + 1;
    }
    assert(char_views(parts@).take(parts.len() as int) =~= char_views(parts@));
    strings_from(&merged)
}


/// All pieces of a list, concatenated in order.
pub open spec fn concat_all(ps: Seq<Seq<char>>) -> Seq<char>
    decreases ps.len(),
{
    if ps.len() == 0 {
        seq![]
    } else {
        concat_all(ps.drop_last()) + ps.last()
    }
}

/// A sentence as `split_sentences` returns it: non-empty, with no whitespace
/// at either end.
pub open spec fn is_trimmed_sentence(s: Seq<char>) -> bool {
    s.len() > 0 && !is_ws(s[0]) && !is_ws(s.last())
}

pub proof fn lemma_concat_all_single(x: Seq<char>)
    ensures
        concat_all(seq![x]) == x,
{
    assert(seq![x].drop_last() =~= Seq::<Seq<char>>::empty());
    assert(concat_all(Seq::<Seq<char>>::empty()) + x =~= x);
}

pub proof fn lemma_concat_all_add(a: Seq<Seq<char>>, b: Seq<Seq<char>>)
    ensures
        concat_all(a + b) == concat_all(a) + concat_all(b),
    decreases b.len(),
{
    if b.len() == 0 {
        assert(a + b =~= a);
        assert(concat_all(a) + concat_all(b) =~= concat_all(a));
    } else {
        lemma_concat_all_add(a, b.drop_last());
        assert((a + b).drop_last() =~= a + b.drop_last());
        assert(concat_all(a) + (concat_all(b.drop_last()) + b.last()) =~= (concat_all(a)
            + concat_all(b.drop_last())) + b.last());
    }
}

proof fn lemma_parts_keep_content(t: Seq<char>)
    ensures
        non_ws(concat_all(sentence_parts(t))) == non_ws(t),
    decreases t.len(),
{
    lemma_first_boundary_range(t, 1);
    let b = first_boundary_from(t, 1);
    if b >= t.len() {
        lemma_non_ws_trim(t);
        if trim(t).len() == 0 {
            assert(non_ws(trim(t)) =~= seq![]);
        } else {
            lemma_concat_all_single(trim(t));
        }
    } else {
        let x = t.take(b);
        let y = t.skip(b);
        let rest = trim_start(y);
        lemma_trim_start_props(y);
        lemma_parts_keep_content(rest);
        lemma_concat_all_add(piece(trim(x)), sentence_parts(rest));
        lemma_non_ws_add(concat_all(piece(trim(x))), concat_all(sentence_parts(rest)));
        lemma_non_ws_trim(x);
        lemma_non_ws_trim(y);
        if trim(x).len() == 0 {
            assert(non_ws(trim(x)) =~= seq![]);
            assert(non_ws(concat_all(piece(trim(x)))) =~= non_ws(trim(x)));
        } else {
            lemma_concat_all_single(trim(x));
        }
        assert(t =~= x + y);
        lemma_non_ws_add(x, y);
    }
}

proof fn lemma_merge_keeps_content(ps: Seq<Seq<char>>)
    ensures
        non_ws(concat_all(merge_short(ps))) == non_ws(concat_all(ps)),
    decreases ps.len(),
{
    if ps.len() > 0 {
        let m = merge_short(ps.drop_last());
        let p = ps.last();
        lemma_merge_keeps_content(ps.drop_last());
        lemma_non_ws_add(concat_all(ps.drop_last()), p);
        if p.len() < 5 && m.len() > 0 {
            let mm = m.update(m.len() - 1, join_with_space(m.last(), p));
            assert(mm.drop_last() =~= m.drop_last());
            lemma_non_ws_add(concat_all(m.drop_last()), join_with_space(m.last(), p));
            lemma_non_ws_add(m.last() + seq![' '], p);
            lemma_non_ws_add(m.last(), seq![' ']);
            assert(seq![' '].drop_last() =~= Seq::<char>::empty());
            assert(seq![' '].last() == ' ');
            assert(non_ws(Seq::<char>::empty()) =~= seq![]);
            assert(non_ws(seq![' ']) =~= seq![]);
            lemma_non_ws_add(concat_all(m.drop_last()), m.last());
            assert(non_ws(concat_all(mm)) =~= non_ws(concat_all(m)) + non_ws(p));
        } else {
            assert(m.push(p).drop_last() =~= m);
            lemma_non_ws_add(concat_all(m), p);
        }
    }
}

/// No text is lost or reordered by sentence splitting: apart from
/// whitespace, the sentences put together are exactly the input text.
pub proof fn split_sentences_keeps_content(t: Seq<char>)
    ensures
        non_ws(concat_all(merge_short(sentence_parts(t)))) == non_ws(t),
{
    lemma_merge_keeps_content(sentence_parts(t));
    lemma_parts_keep_content(t);
}

proof fn lemma_parts_trimmed(t: Seq<char>)
    ensures
        forall|i: int|
            0 <= i < sentence_parts(t).len() ==> is_trimmed_sentence(
                #[trigger] sentence_parts(t)[i],
            ),
    decreases t.len(),
{
    lemma_first_boundary_range(t, 1);
    let b = first_boundary_from(t, 1);
    if b >= t.len() {
        lemma_trim_ends(t);
    } else {
        let rest = trim_start(t.skip(b));
        lemma_trim_start_props(t.skip(b));
        lemma_parts_trimmed(rest);
        lemma_trim_ends(t.take(b));
        let a = piece(trim(t.take(b)));
        assert forall|i: int| 0 <= i < sentence_parts(t).len() implies is_trimmed_sentence(
            #[trigger] sentence_parts(t)[i],
        ) by {
            if i >= a.len() {
                assert(sentence_parts(t)[i] == sentence_parts(rest)[i - a.len()]);
            }
        }
    }
}

proof fn lemma_merge_shape(ps: Seq<Seq<char>>)
    requires
        forall|i: int| 0 <= i < ps.len() ==> is_trimmed_sentence(#[trigger] ps[i]),
    ensures
        merge_short(ps).len() <= ps.len(),
        ps.len() > 0 ==> merge_short(ps).len() > 0,
        forall|i: int|
            0 <= i < merge_short(ps).len() ==> is_trimmed_sentence(#[trigger] merge_short(ps)[i]),
        forall|i: int| 1 <= i < merge_short(ps).len() ==> (#[trigger] merge_short(ps)[i]).len() >= 5,
    decreases ps.len(),
{
    if ps.len() > 0 {
        let q = ps.drop_last();
        assert forall|i: int| 0 <= i < q.len() implies is_trimmed_sentence(#[trigger] q[i]) by {
            assert(q[i] == ps[i]);
        }
        lemma_merge_shape(q);
        let m = merge_short(q);
        let p = ps.last();
        assert(is_trimmed_sentence(ps[ps.len() - 1]));
        if p.len() < 5 && m.len() > 0 {
            let j = join_with_space(m.last(), p);
            assert(is_trimmed_sentence(m[m.len() - 1]));
            assert(j[0] == m.last()[0]);
            assert(j.last() == p.last());
        }
    }
}

/// Every sentence returned is non-empty with no surrounding whitespace, and
/// every sentence after the first has at least five characters.
pub proof fn split_sentences_shape(t: Seq<char>)
    ensures
        forall|i: int|
            0 <= i < merge_short(sentence_parts(t)).len() ==> is_trimmed_sentence(
                #[trigger] merge_short(sentence_parts(t))[i],
            ),
        forall|i: int|
            1 <= i < merge_short(sentence_parts(t)).len() ==> (
            #[trigger] merge_short(sentence_parts(t))[i]).len() >= 5,
{
    lemma_parts_trimmed(t);
    lemma_merge_shape(sentence_parts(t));
}

/// A part as `sentence_parts` gives it: trimmed, with no boundary inside.
pub open spec fn part_ok(p: Seq<char>) -> bool {
    &&& is_trimmed_sentence(p)
    &&& forall|j: int| 1 <= j < p.len() ==> !#[trigger] is_boundary(p, j)
}

/// A part that ends with sentence-ending punctuation.
pub open spec fn ends_sentence(p: Seq<char>) -> bool {
    p.len() > 0 && is_delim(p.last())
}

/// Parts that every part but the last ends a sentence, as cut text gives.
pub open spec fn clean_parts(ps: Seq<Seq<char>>) -> bool {
    &&& forall|j: int| 0 <= j < ps.len() ==> part_ok(#[trigger] ps[j])
    &&& forall|j: int| 0 <= j < ps.len() - 1 ==> ends_sentence(#[trigger] ps[j])
}

/// Parts put together with one space between each two.
pub open spec fn joined(g: Seq<Seq<char>>) -> Seq<char>
    decreases g.len(),
{
    if g.len() <= 1 {
        if g.len() == 1 {
            g[0]
        } else {
            seq![]
        }
    } else {
        join_with_space(g[0], joined(g.drop_first()))
    }
}

/// The parts that `merge_short` puts into each sentence.
pub open spec fn merge_groups(ps: Seq<Seq<char>>) -> Seq<Seq<Seq<char>>>
    decreases ps.len(),
{
    if ps.len() == 0 {
        seq![]
    } else {
        let m = merge_groups(ps.drop_last());
        let p = ps.last();
        if p.len() < 5 && m.len() > 0 {
            m.update(m.len() - 1, m.last().push(p))
        } else {
            m.push(seq![p])
        }
    }
}

/// A group of parts that makes one sentence: a first part followed by short
/// ones, each but the last ending a sentence (the last too when `closed`).
pub open spec fn group_ok(g: Seq<Seq<char>>, closed: bool) -> bool {
    &&& g.len() >= 1
    &&& forall|j: int| 0 <= j < g.len() ==> part_ok(#[trigger] g[j])
    &&& forall|j: int| 1 <= j < g.len() ==> (#[trigger] g[j]).len() < 5
    &&& forall|j: int| 0 <= j < g.len() - 1 ==> ends_sentence(#[trigger] g[j])
    &&& closed ==> ends_sentence(g.last())
}

proof fn lemma_joined_push(g: Seq<Seq<char>>, p: Seq<char>)
    requires
        g.len() >= 1,
    ensures
        joined(g.push(p)) == join_with_space(joined(g), p),
    decreases g.len(),
{
    let h = g.push(p);
    if g.len() == 1 {
        assert(h.drop_first() =~= seq![p]);
        assert(seq![p].len() == 1 && seq![p][0] == p);
        assert(joined(seq![p]) == p);
        assert(h[0] == g[0]);
        assert(joined(h) =~= join_with_space(joined(g), p));
    } else {
        assert(h.drop_first() =~= g.drop_first().push(p));
        lemma_joined_push(g.drop_first(), p);
        assert(joined(h) =~= join_with_space(joined(g), p));
    }
}

proof fn lemma_merge_groups(ps: Seq<Seq<char>>)
    ensures
        merge_groups(ps).len() == merge_short(ps).len(),
        forall|i: int|
            0 <= i < merge_groups(ps).len() ==> (#[trigger] merge_groups(ps)[i]).len() >= 1
                && merge_short(ps)[i] == joined(merge_groups(ps)[i]),
        ps.len() > 0 ==> merge_groups(ps).last().last() == ps.last(),
    decreases ps.len(),
{
    if ps.len() > 0 {
        let q = ps.drop_last();
        lemma_merge_groups(q);
        let m = merge_groups(q);
        let ms = merge_short(q);
        let p = ps.last();
        if p.len() < 5 && m.len() > 0 {
            lemma_joined_push(m.last(), p);
            assert(merge_groups(ps).last().last() == p);
        } else {
            assert(seq![p].len() == 1);
            assert(joined(seq![p]) == p);
        }
    }
}

proof fn lemma_groups_ok(ps: Seq<Seq<char>>)
    requires
        clean_parts(ps),
    ensures
        forall|i: int|
            0 <= i < merge_groups(ps).len() ==> group_ok(
                #[trigger] merge_groups(ps)[i],
                i < merge_groups(ps).len() - 1,
            ),
    decreases ps.len(),
{
    lemma_merge_groups(ps);
    if ps.len() > 0 {
        let q = ps.drop_last();
        assert forall|j: int| 0 <= j < q.len() implies part_ok(#[trigger] q[j]) by {
            assert(q[j] == ps[j]);
        }
        assert forall|j: int| 0 <= j < q.len() - 1 implies ends_sentence(#[trigger] q[j]) by {
            assert(q[j] == ps[j]);
        }
        lemma_groups_ok(q);
        lemma_merge_groups(q);
        let m = merge_groups(q);
        let p = ps.last();
        assert(part_ok(ps[ps.len() - 1]));
        if q.len() > 0 {
            assert(ends_sentence(ps[q.len() - 1]));
            assert(m.last().last() == q.last());
        }
        if p.len() < 5 && m.len() > 0 {
            let g = m.last().push(p);
            assert(group_ok(m[m.len() - 1], false));
            assert forall|j: int| 0 <= j < g.len() - 1 implies ends_sentence(#[trigger] g[j]) by {
                if j < g.len() - 2 {
                    assert(g[j] == m.last()[j]);
                } else {
                    assert(g[j] == m.last().last());
                }
            }
            assert forall|j: int| 0 <= j < g.len() implies part_ok(#[trigger] g[j]) by {
                if j < g.len() - 1 {
                    assert(g[j] == m.last()[j]);
                }
            }
            assert forall|j: int| 1 <= j < g.len() implies (#[trigger] g[j]).len() < 5 by {
                if j < g.len() - 1 {
                    assert(g[j] == m.last()[j]);
                }
            }
            assert(group_ok(g, false));
            let r = merge_groups(ps);
            assert forall|i: int| 0 <= i < r.len() implies group_ok(#[trigger] r[i], i < r.len() - 1) by {
                if i < r.len() - 1 {
                    assert(r[i] == m[i]);
                    assert(group_ok(m[i], i < m.len() - 1));
                }
            }
        } else {
            let r = merge_groups(ps);
            let g = seq![p];
            assert(g[0] == p);
            assert(group_ok(g, false));
            assert forall|i: int| 0 <= i < r.len() implies group_ok(#[trigger] r[i], i < r.len() - 1) by {
                if i < r.len() - 1 {
                    assert(r[i] == m[i]);
                    assert(group_ok(m[i], i < m.len() - 1));
                    if i == m.len() - 1 {
                        assert(ends_sentence(m[i].last()));
                    }
                }
            }
        }
    }
}

proof fn lemma_no_boundary_to_end(t: Seq<char>)
    requires
        forall|j: int| 1 <= j < t.len() ==> !#[trigger] is_boundary(t, j),
    ensures
        first_boundary_from(t, 1) >= t.len(),
{
    lemma_first_boundary_range(t, 1);
}

proof fn lemma_trim_of_trimmed(p: Seq<char>)
    requires
        is_trimmed_sentence(p),
    ensures
        trim(p) == p,
{
    crate::text::lemma_trim_start_skip(p, 0);
    assert(p.skip(0) =~= p);
    crate::text::lemma_trim_end_take(p, p.len() as int);
    assert(p.take(p.len() as int) =~= p);
}

proof fn lemma_joined_start(g: Seq<Seq<char>>)
    requires
        g.len() >= 1,
        forall|j: int| 0 <= j < g.len() ==> part_ok(#[trigger] g[j]),
    ensures
        joined(g).len() > 0,
        joined(g)[0] == g[0][0],
{
    assert(part_ok(g[0]));
}

proof fn lemma_group_parts(g: Seq<Seq<char>>, closed: bool)
    requires
        group_ok(g, closed),
    ensures
        sentence_parts(joined(g)) == g,
    decreases g.len(),
{
    let s = joined(g);
    assert(part_ok(g[0]));
    if g.len() == 1 {
        lemma_no_boundary_to_end(g[0]);
        lemma_trim_of_trimmed(g[0]);
        assert(sentence_parts(s) =~= g);
    } else {
        let a = g[0];
        let h = g.drop_first();
        assert forall|j: int| 0 <= j < h.len() implies part_ok(#[trigger] h[j]) by {
            assert(h[j] == g[j + 1]);
        }
        assert forall|j: int| 1 <= j < h.len() implies (#[trigger] h[j]).len() < 5 by {
            assert(h[j] == g[j + 1]);
        }
        assert forall|j: int| 0 <= j < h.len() - 1 implies ends_sentence(#[trigger] h[j]) by {
            assert(h[j] == g[j + 1]);
        }
        assert(h.last() == g.last());
        assert(group_ok(h, closed));
        lemma_group_parts(h, closed);
        let r = joined(h);
        lemma_joined_start(h);
        assert(ends_sentence(g[0]));
        let b = a.len() as int;
        assert(s == a + seq![' '] + r);
        assert forall|j: int| 1 <= j < b implies !#[trigger] is_boundary(s, j) by {
            assert(s[j] == a[j]);
            assert(s[j - 1] == a[j - 1]);
            assert(!is_boundary(a, j));
        }
        assert(s[b] == ' ');
        assert(s[b - 1] == a.last());
        assert(is_boundary(s, b));
        lemma_first_boundary_range(s, 1);
        assert(first_boundary_from(s, 1) == b);
        assert(s.take(b) =~= a);
        lemma_trim_of_trimmed(a);
        let y = s.skip(b);
        assert(y =~= seq![' '] + r);
        crate::text::lemma_trim_start_skip(y, 1);
        assert(y.skip(1) =~= r);
        assert(sentence_parts(s) == piece(a) + sentence_parts(r));
        assert(sentence_parts(s) =~= g);
    }
}

proof fn lemma_group_merges(g: Seq<Seq<char>>, closed: bool)
    requires
        group_ok(g, closed),
    ensures
        merge_short(g) == seq![joined(g)],
    decreases g.len(),
{
    if g.len() == 1 {
        assert(g.drop_last() =~= Seq::<Seq<char>>::empty());
        assert(merge_short(Seq::<Seq<char>>::empty()) =~= Seq::<Seq<char>>::empty());
        assert(g.last() == g[0]);
        assert(merge_short(g) =~= seq![joined(g)]);
    } else {
        let q = g.drop_last();
        assert forall|j: int| 0 <= j < q.len() implies part_ok(#[trigger] q[j]) by {
            assert(q[j] == g[j]);
        }
        assert forall|j: int| 1 <= j < q.len() implies (#[trigger] q[j]).len() < 5 by {
            assert(q[j] == g[j]);
        }
        assert forall|j: int| 0 <= j < q.len() - 1 implies ends_sentence(#[trigger] q[j]) by {
            assert(q[j] == g[j]);
        }
        assert(ends_sentence(g[q.len() - 1]));
        lemma_group_merges(q, true);
        assert(g.last().len() < 5);
        lemma_joined_push(q, g.last());
        assert(q.push(g.last()) =~= g);
        assert(merge_short(g) =~= seq![joined(g)]);
    }
}

proof fn lemma_trim_no_boundary(x: Seq<char>)
    requires
        forall|j: int| 1 <= j < x.len() ==> !#[trigger] is_boundary(x, j),
    ensures
        forall|j: int| 1 <= j < trim(x).len() ==> !#[trigger] is_boundary(trim(x), j),
        x.len() > 0 && !is_ws(x.last()) ==> trim(x).len() > 0 && trim(x).last() == x.last(),
{
    let k = lemma_trim_start_props(x);
    let u = x.skip(k);
    let m = crate::text::lemma_trim_end_props(u);
    assert(trim(x) == u.take(m));
    assert forall|j: int| 1 <= j < trim(x).len() implies !#[trigger] is_boundary(trim(x), j) by {
        assert(trim(x)[j] == x[k + j]);
        assert(trim(x)[j - 1] == x[k + j - 1]);
        assert(!is_boundary(x, k + j));
    }
    if x.len() > 0 && !is_ws(x.last()) {
        assert(k < x.len());
        assert(u.last() == x.last());
        assert(m == u.len());
        assert(trim(x).last() == x.last());
    }
}

proof fn lemma_parts_clean(t: Seq<char>)
    ensures
        clean_parts(sentence_parts(t)),
    decreases t.len(),
{
    lemma_parts_trimmed(t);
    lemma_first_boundary_range(t, 1);
    let b = first_boundary_from(t, 1);
    let ps = sentence_parts(t);
    if b >= t.len() {
        lemma_trim_no_boundary(t);
        assert forall|j: int| 0 <= j < ps.len() implies part_ok(#[trigger] ps[j]) by {
            assert(ps[j] == trim(t));
        }
    } else {
        let x = t.take(b);
        let rest = trim_start(t.skip(b));
        lemma_trim_start_props(t.skip(b));
        lemma_parts_clean(rest);
        assert forall|j: int| 1 <= j < x.len() implies !#[trigger] is_boundary(x, j) by {
            assert(x[j] == t[j] && x[j - 1] == t[j - 1]);
            assert(!is_boundary(t, j));
        }
        assert(is_delim(t[b - 1]));
        assert(!is_ws(t[b - 1]));
        assert(x.last() == t[b - 1]);
        lemma_trim_no_boundary(x);
        let a = trim(x);
        assert(piece(a) =~= seq![a]);
        let rp = sentence_parts(rest);
        assert(ps == seq![a] + rp);
        assert forall|j: int| 0 <= j < ps.len() implies part_ok(#[trigger] ps[j]) by {
            if j > 0 {
                assert(ps[j] == rp[j - 1]);
            } else {
                assert(ps[0] == a);
            }
        }
        assert forall|j: int| 0 <= j < ps.len() - 1 implies ends_sentence(#[trigger] ps[j]) by {
            if j > 0 {
                assert(ps[j] == rp[j - 1]);
            } else {
                assert(ps[0] == a);
            }
        }
    }
}

/// Every sentence that `split_sentences` returns is a fixed point of it:
/// splitting the sentence again gives that sentence alone.
pub proof fn resplit_gives_the_sentence(t: Seq<char>, i: int)
    requires
        0 <= i < merge_short(sentence_parts(t)).len(),
    ensures
        merge_short(sentence_parts(merge_short(sentence_parts(t))[i])) == seq![
            merge_short(sentence_parts(t))[i],
        ],
{
    let ps = sentence_parts(t);
    lemma_parts_clean(t);
    lemma_merge_groups(ps);
    lemma_groups_ok(ps);
    let gs = merge_groups(ps);
    let g = gs[i];
    assert(group_ok(g, i < gs.len() - 1));
    lemma_group_parts(g, i < gs.len() - 1);
    lemma_group_merges(g, i < gs.len() - 1);
}

proof fn lemma_joined_last(g: Seq<Seq<char>>)
    requires
        g.len() >= 1,
        g.last().len() > 0,
    ensures
        joined(g).len() > 0,
        joined(g).last() == g.last().last(),
    decreases g.len(),
{
    if g.len() > 1 {
        let h = g.drop_first();
        assert(h.last() == g.last());
        lemma_joined_last(h);
    }
}

/// Only `.`, `!`, `?` and `।` end a sentence: a text that is not blank and
/// has none of them followed by whitespace is one sentence, the text itself
/// trimmed.
pub proof fn unbroken_text_is_one_sentence(t: Seq<char>)
    requires
        trim(t).len() > 0,
        forall|i: int|
            1 <= i < t.len() && is_ws(#[trigger] t[i]) ==> !(t[i - 1] == '.' || t[i - 1] == '!'
                || t[i - 1] == '?' || t[i - 1] == '\u{0964}'),
    ensures
        merge_short(sentence_parts(t)) == seq![trim(t)],
{
    assert forall|j: int| 1 <= j < t.len() implies !#[trigger] is_boundary(t, j) by {
        if is_ws(t[j]) {
            assert(!(t[j - 1] == '.' || t[j - 1] == '!' || t[j - 1] == '?' || t[j - 1]
                == '\u{0964}'));
        }
    }
    lemma_no_boundary_to_end(t);
    assert(sentence_parts(t) == seq![trim(t)]);
    let ps = seq![trim(t)];
    assert(ps.drop_last() =~= Seq::<Seq<char>>::empty());
    assert(merge_short(Seq::<Seq<char>>::empty()) =~= Seq::<Seq<char>>::empty());
    assert(merge_short(ps) =~= seq![trim(t)]);
}

/// Every sentence but the last ends with `.`, `!`, `?` or `।`: text is only
/// cut after sentence-ending punctuation.
pub proof fn sentences_end_at_punctuation(t: Seq<char>, i: int)
    requires
        0 <= i < merge_short(sentence_parts(t)).len() - 1,
    ensures
        ({
            let s = merge_short(sentence_parts(t))[i];
            s.len() > 0 && (s.last() == '.' || s.last() == '!' || s.last() == '?' || s.last()
                == '\u{0964}')
        }),
{
    let ps = sentence_parts(t);
    lemma_parts_clean(t);
    lemma_merge_groups(ps);
    lemma_groups_ok(ps);
    let gs = merge_groups(ps);
    let g = gs[i];
    assert(group_ok(g, true));
    assert(ends_sentence(g.last()));
    lemma_joined_last(g);
}

proof fn lemma_merge_groups_cover(ps: Seq<Seq<char>>)
    ensures
        merge_groups(ps).flatten_alt() == ps,
        forall|i: int|
            1 <= i < merge_groups(ps).len() ==> (#[trigger] merge_groups(ps)[i])[0].len() >= 5,
        forall|i: int|
            0 <= i < merge_groups(ps).len() ==> forall|j: int|
                1 <= j < (#[trigger] merge_groups(ps)[i]).len() ==> merge_groups(ps)[i][j].len() < 5,
    decreases ps.len(),
{
    lemma_merge_groups(ps);
    if ps.len() > 0 {
        let q = ps.drop_last();
        lemma_merge_groups_cover(q);
        lemma_merge_groups(q);
        let m = merge_groups(q);
        let p = ps.last();
        let r = merge_groups(ps);
        if p.len() < 5 && m.len() > 0 {
            let g = m.last().push(p);
            assert(r.drop_last() =~= m.drop_last());
            assert(m.flatten_alt() == m.drop_last().flatten_alt() + m.last());
            assert(r.last() == g);
            assert(r.flatten_alt() == r.drop_last().flatten_alt() + r.last());
            assert(q.push(p) =~= ps);
            assert(r.flatten_alt() =~= (m.drop_last().flatten_alt() + m.last()).push(p));
            assert(r.flatten_alt() =~= ps);
            assert forall|i: int| 1 <= i < r.len() implies (#[trigger] r[i])[0].len() >= 5 by {
                if i < r.len() - 1 {
                    assert(r[i] == m[i]);
                } else {
                    assert(r[i][0] == m.last()[0]);
                    assert(m.last() == m[m.len() - 1]);
                }
            }
            assert forall|i: int| 0 <= i < r.len() implies forall|j: int|
                1 <= j < (#[trigger] r[i]).len() ==> r[i][j].len() < 5 by {
                if i < r.len() - 1 {
                    assert(r[i] == m[i]);
                } else {
                    assert(m.last() == m[m.len() - 1]);
                    assert forall|j: int| 1 <= j < r[i].len() implies r[i][j].len() < 5 by {
                        if j < r[i].len() - 1 {
                            assert(r[i][j] == m[m.len() - 1][j]);
                        }
                    }
                }
            }
        } else {
            assert(r.drop_last() =~= m);
            assert(r.flatten_alt() =~= ps);
            assert forall|i: int| 1 <= i < r.len() implies (#[trigger] r[i])[0].len() >= 5 by {
                if i < r.len() - 1 {
                    assert(r[i] == m[i]);
                } else {
                    assert(r[i] == seq![p]);
                }
            }
            assert forall|i: int| 0 <= i < r.len() implies forall|j: int|
                1 <= j < (#[trigger] r[i]).len() ==> r[i][j].len() < 5 by {
                if i < r.len() - 1 {
                    assert(r[i] == m[i]);
                }
            }
        }
    }
}

/// How the parts of a text become sentences: the parts are taken in order
/// in groups, each sentence is one group joined with single spaces, every
/// group after the first starts with a part of at least five characters, and
/// every later part of a group is shorter than five characters.
pub proof fn sentences_are_grouped_parts(t: Seq<char>)
    ensures
        exists|gs: Seq<Seq<Seq<char>>>|
            #[trigger] gs.flatten() == sentence_parts(t) && gs.len() == merge_short(
                sentence_parts(t),
            ).len() && (forall|i: int|
                0 <= i < gs.len() ==> (#[trigger] gs[i]).len() >= 1 && merge_short(
                    sentence_parts(t),
                )[i] == joined(gs[i]) && (i >= 1 ==> gs[i][0].len() >= 5) && (forall|j: int|
                    1 <= j < gs[i].len() ==> gs[i][j].len() < 5)),
{
    let ps = sentence_parts(t);
    lemma_merge_groups(ps);
    lemma_merge_groups_cover(ps);
    let gs = merge_groups(ps);
    gs.lemma_flatten_and_flatten_alt_are_equivalent();
    assert forall|i: int| 0 <= i < gs.len() implies (#[trigger] gs[i]).len() >= 1 && merge_short(
        ps,
    )[i] == joined(gs[i]) && (i >= 1 ==> gs[i][0].len() >= 5) && (forall|j: int|
        1 <= j < gs[i].len() ==> gs[i][j].len() < 5) by {}
    assert(gs.flatten() == ps);
}

} // verus!
