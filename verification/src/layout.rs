//! Fitting translated text into the room the original text had: greedy line
//! wrapping and splitting a string into parts in proportion to given lengths.

use vstd::prelude::*;

use crate::translate::sentence::{concat_all, lemma_concat_all_add, lemma_concat_all_single};
use crate::text::{
    is_word, lemma_non_ws_add, lemma_non_ws_trim, lemma_trim_start_props, lemma_words_are_words,
    lemma_ws_index_from, non_ws, trim_start, ws_index_from,
    all_ws, char_views, chars_of, is_ws, lemma_trim_empty_iff_all_ws, skip_ws, split_whitespace,
    string_from_chars, trim, words,
};

verus! {

/// `w` cut into consecutive chunks of `n` characters (the last may be
/// shorter); an empty `w` has no chunks.
pub open spec fn chunks(w: Seq<char>, n: int) -> Seq<Seq<char>>
    decreases w.len(),
{
    if w.len() == 0 {
        seq![]
    } else if n <= 0 || w.len() <= n {
        seq![w]
    } else {
        seq![w.take(n)] + chunks(w.skip(n), n)
    }
}

/// `split_word`: chunks of `max_chars` characters, or the word itself when
/// `max_chars` is 0.
pub open spec fn split_word_spec(w: Seq<char>, max_chars: int) -> Seq<Seq<char>> {
    if max_chars == 0 {
        seq![w]
    } else {
        chunks(w, max_chars)
    }
}

/// One step of greedy wrapping: `(finished lines, current line)` after
/// placing word `w` with line width `max`.
pub open spec fn wrap_step(
    state: (Seq<Seq<char>>, Seq<char>),
    w: Seq<char>,
    max: int,
) -> (Seq<Seq<char>>, Seq<char>) {
    let lines = state.0;
    let cur = state.1;
    let wide = if max < 1 {
        1
    } else {
        max
    };
    if cur.len() == 0 {
        if w.len() <= max {
            (lines, w)
        } else {
            (lines + chunks(w, wide), seq![])
        }
    } else if cur.len() + 1 + w.len() <= max {
        (lines, cur + seq![' '] + w)
    } else if w.len() <= max {
        (lines.push(cur), w)
    } else {
        (lines.push(cur) + chunks(w, wide), seq![])
    }
}

/// The wrapping state after placing all of `ws`, in order.
pub open spec fn wrap_state(ws: Seq<Seq<char>>, max: int) -> (Seq<Seq<char>>, Seq<char>)
    decreases ws.len(),
{
    if ws.len() == 0 {
        (seq![], seq![])
    } else {
        wrap_step(wrap_state(ws.drop_last(), max), ws.last(), max)
    }
}

/// Greedy wrapping of the words of `text` into lines of at most `max`
/// characters (words joined by single spaces; a word longer than a line is
/// cut into chunks). Blank text, or text that yields no line, is returned as
/// its only line.
pub open spec fn reflowed(text: Seq<char>, max: int) -> Seq<Seq<char>> {
    if trim(text).len() == 0 {
        seq![text]
    } else {
        let st = wrap_state(words(text), max);
        let lines = if st.1.len() > 0 {
            st.0.push(st.1)
        } else {
            st.0
        };
        if lines.len() == 0 {
            seq![text]
        } else {
            lines
        }
    }
}

/// Shortest original (in characters) that is ever reflowed.
pub open spec fn reflow_min_chars() -> int {
    12
}

/// Narrowest line width used when reflowing.
pub open spec fn reflow_min_line_chars() -> int {
    10
}

/// Whether a translation is long enough, relative to its original, to be
/// wrapped onto several lines: the original has at least 12 characters and
/// the translation is more than 1.35 times as long.
pub open spec fn should_reflow(orig_len: int, trans_len: int) -> bool {
    orig_len >= reflow_min_chars() && trans_len * 20 > orig_len * 27
}

/// The lines a translated fragment is written as.
pub open spec fn reflow_lines_spec(original: Seq<char>, translated: Seq<char>) -> Seq<Seq<char>> {
    let orig_len = if original.len() < 1 {
        1
    } else {
        original.len() as int
    };
    if should_reflow(orig_len, translated.len() as int) {
        reflowed(
            translated,
            if orig_len < reflow_min_line_chars() {
                reflow_min_line_chars()
            } else {
                orig_len
            },
        )
    } else {
        seq![translated]
    }
}

fn chunk_chars(w: &Vec<char>, n: usize) -> (r: Vec<Vec<char>>)
    requires
        n > 0,
    ensures
        char_views(r@) == chunks(w@, n as int),
{
    let mut r: Vec<Vec<char>> = Vec::new();
    let mut pos: usize = 0;
    assert(w@.skip(0) =~= w@);
    while pos < w.len()
        invariant
            n > 0,
            pos <= w.len(),
            char_views(r@) + chunks(w@.skip(pos as int), n as int) == chunks(w@, n as int),
        decreases w.len() - pos,
    {
        let ghost u = w@.skip(pos as int);
        let end = if w.len() - pos <= n {
            w.len()
        } else {
            pos + n
        };
        let piece = crate::text::copy_range(w, pos, end);
        let ghost before = r@;
        r.push(piece);
        if w.len() - pos <= n {
            assert(piece@ =~= u);
            assert(w@.skip(end as int) =~= Seq::<char>::empty());
        } else {
            assert(piece@ =~= u.take(n as int));
            assert(w@.skip(end as int) =~= u.skip(n as int));
        }
        assert(char_views(r@) =~= char_views(before).push(piece@));
        assert(char_views(r@) + chunks(w@.skip(end as int), n as int) =~= char_views(before)
            + chunks(u, n as int));
        pos = end;
    }
    assert(w@.skip(pos as int) =~= Seq::<char>::empty());
    assert(char_views(r@) + Seq::<Seq<char>>::empty() =~= char_views(r@));
    r
}

/// Cuts a word into chunks of `max_chars` characters.
pub fn split_word(word: &str, max_chars: usize) -> (r: Vec<String>)
    ensures
        crate::translate::sentence::views(r@) == split_word_spec(word@, max_chars as int),
{
    if max_chars == 0 {
        let mut r: Vec<String> = Vec::new();
        r.push(word.to_owned());
        assert(crate::translate::sentence::views(r@) =~= seq![word@]);
        return r;
    }
    let w = chars_of(word);
    let c = chunk_chars(&w, max_chars);
    strings_of(&c)
}

pub fn strings_of(v: &Vec<Vec<char>>) -> (r: Vec<String>)
    ensures
        crate::translate::sentence::views(r@) == char_views(v@),
{
    let mut r: Vec<String> = Vec::new();
    let mut i: usize = 0;
    while i < v.len()
        invariant
            i <= v.len(),
            crate::translate::sentence::views(r@) == char_views(v@.take(i as int)),
        decreases v.len() - i,
    {
        let s = string_from_chars(v[i].as_slice());
        let ghost before = r@;
        r.push(s);
        assert(crate::translate::sentence::views(r@) =~= crate::translate::sentence::views(
            before,
        ).push(s@));
        assert(char_views(v@.take(i as int + 1)) =~= char_views(v@.take(i as int)).push(
            v@[i as int]@,
        ));
        i = i + 1;
    }
    assert(v@.take(v.len() as int) =~= v@);
    r
}

fn append_all(lines: &mut Vec<Vec<char>>, more: Vec<Vec<char>>)
    ensures
        char_views(final(lines)@) == char_views(old(lines)@) + char_views(more@),
{
    let ghost start = char_views(lines@);
    let mut i: usize = 0;
    while i < more.len()
        invariant
            i <= more.len(),
            char_views(lines@) == start + char_views(more@).take(i as int),
        decreases more.len() - i,
    {
        let piece = crate::text::copy_range(&more[i], 0, more[i].len());
        let ghost before = lines@;
        lines.push(piece);
        assert(piece@ =~= more@[i as int]@);
        assert(char_views(lines@) =~= char_views(before).push(piece@));
        assert(char_views(more@).take(i as int + 1) =~= char_views(more@).take(i as int).push(
            more@[i as int]@,
        ));
        i = i + 1;
    }
    assert(char_views(more@).take(more.len() as int) =~= char_views(more@));
}

/// Greedily wraps the words of `text` into lines of at most `max_chars`
/// characters (see `reflowed`).
pub fn reflow_text(text: &str, max_chars: usize) -> (r: Vec<String>)
    ensures
        crate::translate::sentence::views(r@) == reflowed(text@, max_chars as int),
{
    let t = chars_of(text);
    if skip_ws(&t, 0) == t.len() {
        proof {
            assert(t@.skip(0) =~= t@);
            assert(all_ws(t@));
            lemma_trim_empty_iff_all_ws(t@);
        }
        let mut r: Vec<String> = Vec::new();
        r.push(text.to_owned());
        assert(crate::translate::sentence::views(r@) =~= seq![text@]);
        return r;
    }
    proof {
        assert(t@.skip(0) =~= t@);
        lemma_trim_empty_iff_all_ws(t@);
    }
    let ws = split_whitespace(&t);
    let wide: usize = if max_chars < 1 {
        1
    } else {
        max_chars
    };
    let mut lines: Vec<Vec<char>> = Vec::new();
    let mut current: Vec<char> = Vec::new();
    let mut i: usize = 0;
    while i < ws.len()
        invariant
            i <= ws.len(),
            wide == (if max_chars < 1 {
                1
            } else {
                max_chars
            }),
            (char_views(lines@), current@) == wrap_state(
                char_views(ws@).take(i as int),
                max_chars as int,
            ),
        decreases ws.len() - i,
    {
        let word = &ws[i];
        let ghost prefix = char_views(ws@).take(i as int + 1);
        assert(prefix.drop_last() =~= char_views(ws@).take(i as int));
        assert(prefix.last() == word@);
        let ghost before = (char_views(lines@), current@);
        let wlen = word.len();
        let clen = current.len();
        if clen == 0 {
            if wlen <= max_chars {
                current = crate::text::copy_range(word, 0, wlen);
                assert(current@ =~= word@);
            } else {
                let pieces = chunk_chars(word, wide);
                append_all(&mut lines, pieces);
            }
        } else if wlen < max_chars && clen <= max_chars - 1 - wlen {
            current.push(' ');
            let mut k: usize = 0;
            let ghost c0 = current@;
            while k < wlen
                invariant
                    k <= wlen,
                    wlen == word.len(),
                    current@ == c0 + word@.take(k as int),
                decreases wlen - k,
            {
                current.push(word[k]);
                k = k + 1;
                assert(current@ =~= c0 + word@.take(k as int));
            }
            assert(word@.take(wlen as int) =~= word@);
        } else {
            let done = current;
            let ghost l0 = lines@;
            lines.push(done);
            assert(char_views(lines@) =~= char_views(l0).push(before.1));
            if wlen <= max_chars {
                current = crate::text::copy_range(word, 0, wlen);
                assert(current@ =~= word@);
            } else {
                current = Vec::new();
                let pieces = chunk_chars(word, wide);
                append_all(&mut lines, pieces);
            }
        }
        assert((char_views(lines@), current@) == wrap_step(before, word@, max_chars as int));
        i = i + 1;
    }
    assert(char_views(ws@).take(ws.len() as int) =~= char_views(ws@));
    if current.len() > 0 {
        let ghost l0 = lines@;
        lines.push(current);
        assert(char_views(lines@) =~= char_views(l0).push(current@));
    }
    if lines.len() == 0 {
        let mut r: Vec<String> = Vec::new();
        r.push(text.to_owned());
        assert(crate::translate::sentence::views(r@) =~= seq![text@]);
        return r;
    }
    strings_of(&lines)
}

/// Whether `t` has any character outside ASCII.
pub open spec fn has_non_ascii(t: Seq<char>) -> bool {
    exists|i: int| 0 <= i < t.len() && (t[i] as u32) > 0x7F
}

/// Splits a translated fragment into the lines it is written as: when the
/// translation is much longer than the original it is wrapped to the
/// original's width (see `reflow_lines_spec`), otherwise it stays one line.
pub fn reflow_lines(original: &str, translated: &str) -> (r: Vec<String>)
    ensures
        crate::translate::sentence::views(r@) == reflow_lines_spec(original@, translated@),
{
    let o = chars_of(original);
    let t = chars_of(translated);
    let orig_len: usize = if o.len() < 1 {
        1
    } else {
        o.len()
    };
    let trans_len = t.len();
    let should = orig_len >= 12 && (trans_len as u128) * 20 > (orig_len as u128) * 27;
    if should {
        let width: usize = if orig_len < 10 {
            10
        } else {
            orig_len
        };
        reflow_text(translated, width)
    } else {
        let mut r: Vec<String> = Vec::new();
        r.push(translated.to_owned());
        assert(crate::translate::sentence::views(r@) =~= seq![translated@]);
        r
    }
}


proof fn lemma_chunks_bounds(w: Seq<char>, n: int)
    requires
        n >= 1,
    ensures
        forall|i: int|
            0 <= i < chunks(w, n).len() ==> 1 <= (#[trigger] chunks(w, n)[i]).len() <= n,
        w.len() > 0 ==> chunks(w, n).len() > 0,
        non_ws(concat_all(chunks(w, n))) == non_ws(w),
    decreases w.len(),
{
    if w.len() == 0 {
        assert(concat_all(Seq::<Seq<char>>::empty()) =~= Seq::<char>::empty());
    } else if w.len() <= n {
        lemma_concat_all_single(w);
    } else {
        lemma_chunks_bounds(w.skip(n), n);
        let rest = chunks(w.skip(n), n);
        assert forall|i: int| 0 <= i < chunks(w, n).len() implies 1 <= (
        #[trigger] chunks(w, n)[i]).len() <= n by {
            if i > 0 {
                assert(chunks(w, n)[i] == rest[i - 1]);
            }
        }
        lemma_concat_all_add(seq![w.take(n)], rest);
        lemma_concat_all_single(w.take(n));
        lemma_non_ws_add(w.take(n), concat_all(rest));
        assert(w =~= w.take(n) + w.skip(n));
        lemma_non_ws_add(w.take(n), w.skip(n));
    }
}

/// The text held by a wrapping state: finished lines, then the current line.
pub open spec fn wrap_content(st: (Seq<Seq<char>>, Seq<char>)) -> Seq<char> {
    concat_all(st.0) + st.1
}

proof fn lemma_wrap_state_props(ws: Seq<Seq<char>>, max: int)
    requires
        max >= 1,
        forall|i: int| 0 <= i < ws.len() ==> is_word(#[trigger] ws[i]),
    ensures
        forall|i: int|
            0 <= i < wrap_state(ws, max).0.len() ==> 1 <= (#[trigger] wrap_state(
                ws,
                max,
            ).0[i]).len() <= max,
        wrap_state(ws, max).1.len() <= max,
        ws.len() > 0 ==> wrap_state(ws, max).0.len() > 0 || wrap_state(ws, max).1.len() > 0,
        non_ws(wrap_content(wrap_state(ws, max))) == non_ws(concat_all(ws)),
    decreases ws.len(),
{
    if ws.len() == 0 {
        assert(concat_all(Seq::<Seq<char>>::empty()) =~= Seq::<char>::empty());
        assert(wrap_content(wrap_state(ws, max)) =~= Seq::<char>::empty());
    } else {
        let q = ws.drop_last();
        assert forall|i: int| 0 <= i < q.len() implies is_word(#[trigger] q[i]) by {
            assert(q[i] == ws[i]);
        }
        lemma_wrap_state_props(q, max);
        let st = wrap_state(q, max);
        let w = ws.last();
        assert(is_word(ws[ws.len() - 1]));
        lemma_chunks_bounds(w, max);
        let nst = wrap_state(ws, max);
        assert(nst == wrap_step(st, w, max));
        // content
        lemma_non_ws_add(concat_all(q), w);
        lemma_non_ws_add(concat_all(st.0), st.1);
        if st.1.len() == 0 {
            if w.len() <= max {
                lemma_non_ws_add(concat_all(st.0), w);
            } else {
                lemma_concat_all_add(st.0, chunks(w, max));
                lemma_non_ws_add(concat_all(st.0), concat_all(chunks(w, max)));
                assert(non_ws(st.1) =~= Seq::<char>::empty());
                assert(nst.1 =~= Seq::<char>::empty());
                assert(wrap_content(nst) =~= concat_all(st.0 + chunks(w, max)));
                assert(non_ws(concat_all(st.0)) + Seq::<char>::empty() =~= non_ws(concat_all(st.0)));
            }
        } else if st.1.len() + 1 + w.len() <= max {
            lemma_non_ws_add(concat_all(st.0), st.1 + seq![' '] + w);
            lemma_non_ws_add(st.1 + seq![' '], w);
            lemma_non_ws_add(st.1, seq![' ']);
            assert(seq![' '].drop_last() =~= Seq::<char>::empty());
            assert(non_ws(Seq::<char>::empty()) =~= Seq::<char>::empty());
            assert(non_ws(seq![' ']) =~= Seq::<char>::empty());
            assert(wrap_content(nst) =~= concat_all(st.0) + (st.1 + seq![' '] + w));
        } else {
            assert(st.0.push(st.1).drop_last() =~= st.0);
            assert(concat_all(st.0.push(st.1)) == concat_all(st.0) + st.1);
            if w.len() <= max {
                lemma_non_ws_add(concat_all(st.0.push(st.1)), w);
                lemma_non_ws_add(concat_all(st.0), st.1);
            } else {
                lemma_concat_all_add(st.0.push(st.1), chunks(w, max));
                lemma_non_ws_add(concat_all(st.0.push(st.1)), concat_all(chunks(w, max)));
                assert(non_ws(Seq::<char>::empty()) =~= Seq::<char>::empty());
                assert(wrap_content(nst) =~= concat_all(st.0.push(st.1) + chunks(w, max)));
                assert(non_ws(concat_all(st.0.push(st.1))) + non_ws(concat_all(chunks(w, max)))
                    + Seq::<char>::empty() =~= non_ws(concat_all(st.0.push(st.1))) + non_ws(
                    concat_all(chunks(w, max)),
                ));
            }
            assert(forall|i: int|
                0 <= i < st.0.push(st.1).len() ==> 1 <= (#[trigger] st.0.push(st.1)[i]).len()
                    <= max);
        }
        assert forall|i: int| 0 <= i < nst.0.len() implies 1 <= (#[trigger] nst.0[i]).len()
            <= max by {
            if st.1.len() == 0 {
                if w.len() > max && i >= st.0.len() {
                    assert(nst.0[i] == chunks(w, max)[i - st.0.len()]);
                }
            } else if st.1.len() + 1 + w.len() > max {
                let p = st.0.push(st.1);
                if i < p.len() {
                    assert(nst.0[i] == p[i]);
                } else {
                    assert(nst.0[i] == chunks(w, max)[i - p.len()]);
                }
            }
        }
    }
}

/// Wrapped lines are never wider than the line width and never empty, as
/// long as the text is not blank and the width is at least one character.
pub proof fn reflow_fits_width(text: Seq<char>, max: int)
    requires
        max >= 1,
        trim(text).len() > 0,
    ensures
        forall|i: int|
            0 <= i < reflowed(text, max).len() ==> 1 <= (#[trigger] reflowed(text, max)[i]).len()
                <= max,
{
    lemma_words_are_words(text);
    lemma_wrap_state_props(words(text), max);
    lemma_trim_empty_iff_all_ws(text);
    lemma_words_nonempty(text);
}

/// Wrapping loses and reorders nothing: apart from whitespace, the lines put
/// together are the text.
pub proof fn reflow_keeps_content(text: Seq<char>, max: int)
    requires
        max >= 1,
    ensures
        non_ws(concat_all(reflowed(text, max))) == non_ws(text),
{
    lemma_trim_empty_iff_all_ws(text);
    if trim(text).len() == 0 {
        lemma_concat_all_single(text);
    } else {
        lemma_words_are_words(text);
        lemma_wrap_state_props(words(text), max);
        lemma_words_nonempty(text);
        lemma_words_content(text);
        let st = wrap_state(words(text), max);
        if st.1.len() > 0 {
            assert(st.0.push(st.1).drop_last() =~= st.0);
        } else {
            assert(wrap_content(st) =~= concat_all(st.0));
        }
    }
}

proof fn lemma_wrap_maximal(ws: Seq<Seq<char>>, max: int)
    requires
        max >= 1,
        forall|i: int| 0 <= i < ws.len() ==> is_word(#[trigger] ws[i]),
        forall|i: int| 0 <= i < ws.len() ==> (#[trigger] ws[i]).len() <= max,
    ensures
        ws.len() == 0 ==> wrap_state(ws, max).0.len() == 0 && wrap_state(ws, max).1.len() == 0,
        ws.len() > 0 ==> wrap_state(ws, max).1.len() > 0,
        forall|i: int|
            0 <= i < wrap_state(ws, max).0.push(wrap_state(ws, max).1).len() - 1 ==> (#[trigger] wrap_state(ws, max).0.push(
                wrap_state(ws, max).1,
            )[i]).len() + 1 + wrap_state(ws, max).0.push(wrap_state(ws, max).1)[i + 1].len() > max,
    decreases ws.len(),
{
    if ws.len() > 0 {
        let q = ws.drop_last();
        assert forall|i: int| 0 <= i < q.len() implies is_word(#[trigger] q[i]) by {
            assert(q[i] == ws[i]);
        }
        assert forall|i: int| 0 <= i < q.len() implies (#[trigger] q[i]).len() <= max by {
            assert(q[i] == ws[i]);
        }
        lemma_wrap_maximal(q, max);
        let st = wrap_state(q, max);
        let w = ws.last();
        assert(is_word(ws[ws.len() - 1]));
        assert(w.len() <= max);
        let l = st.0.push(st.1);
        let nst = wrap_state(ws, max);
        let nl = nst.0.push(nst.1);
        if q.len() == 0 {
            assert(nst == (st.0, w));
            assert(nl.len() == 1);
        } else if st.1.len() + 1 + w.len() <= max {
            assert(nst == (st.0, st.1 + seq![' '] + w));
            assert forall|i: int| 0 <= i < nl.len() - 1 implies (#[trigger] nl[i]).len() + 1 + nl[i + 1].len() > max by {
                assert(nl[i] == l[i]);
                if i + 1 < nl.len() - 1 {
                    assert(nl[i + 1] == l[i + 1]);
                } else {
                    assert(l[i + 1] == st.1);
                }
            }
        } else {
            assert(nst == (st.0.push(st.1), w));
            assert forall|i: int| 0 <= i < nl.len() - 1 implies (#[trigger] nl[i]).len() + 1 + nl[i + 1].len() > max by {
                if i < l.len() - 1 {
                    assert(nl[i] == l[i]);
                    assert(nl[i + 1] == l[i + 1]);
                } else {
                    assert(nl[i] == st.1);
                    assert(nl[i + 1] == w);
                }
            }
        }
    }
}

/// A long translation is wrapped to the width of its original (at least ten
/// characters): when the original has at least 12 characters and the
/// translation is more than 1.35 times as long, no line is wider than that
/// width, and (when no single word is wider) no two neighbouring lines would
/// fit on one line of that width; otherwise the translation stays one line.
pub proof fn reflow_uses_original_width(original: Seq<char>, translated: Seq<char>)
    ensures
        ({
            let orig = if original.len() < 1 {
                1
            } else {
                original.len() as int
            };
            let width = if orig < 10 {
                10
            } else {
                orig
            };
            let r = reflow_lines_spec(original, translated);
            let reflows = orig >= 12 && translated.len() * 20 > orig * 27;
            &&& !reflows ==> r == seq![translated]
            &&& reflows && trim(translated).len() > 0 ==> forall|i: int|
                0 <= i < r.len() ==> 1 <= (#[trigger] r[i]).len() <= width
            &&& reflows && trim(translated).len() > 0 && (forall|j: int|
                0 <= j < words(translated).len() ==> (#[trigger] words(translated)[j]).len()
                    <= width) ==> forall|i: int|
                0 <= i < r.len() - 1 ==> (#[trigger] r[i]).len() + 1 + r[i + 1].len() > width
        }),
{
    let orig = if original.len() < 1 {
        1
    } else {
        original.len() as int
    };
    let width = if orig < 10 {
        10
    } else {
        orig
    };
    if should_reflow(orig, translated.len() as int) && trim(translated).len() > 0 {
        reflow_fits_width(translated, width);
        if forall|j: int|
            0 <= j < words(translated).len() ==> (#[trigger] words(translated)[j]).len() <= width {
            lemma_words_are_words(translated);
            lemma_trim_empty_iff_all_ws(translated);
            lemma_words_nonempty(translated);
            lemma_wrap_maximal(words(translated), width);
        }
    }
}

/// A text that is not blank has at least one word.
proof fn lemma_words_nonempty(s: Seq<char>)
    requires
        !all_ws(s),
    ensures
        words(s).len() > 0,
{
    lemma_trim_start_props(s);
    lemma_trim_empty_iff_all_ws(s);
    let k = lemma_trim_start_props(s);
    if k == s.len() {
        assert(all_ws(s));
    }
}

/// The words of `s`, put together, hold the non-whitespace of `s`.
pub proof fn lemma_words_content(s: Seq<char>)
    ensures
        non_ws(concat_all(words(s))) == non_ws(s),
    decreases s.len(),
{
    let k0 = lemma_trim_start_props(s);
    let t = trim_start(s);
    lemma_non_ws_trim(s);
    if t.len() == 0 {
        assert(non_ws(t) =~= Seq::<char>::empty()) by {
            assert(t =~= Seq::<char>::empty());
        }
        assert(concat_all(Seq::<Seq<char>>::empty()) =~= Seq::<char>::empty());
    } else {
        let k = ws_index_from(t, 1);
        lemma_ws_index_from(t, 1);
        lemma_words_content(t.skip(k));
        lemma_concat_all_add(seq![t.take(k)], words(t.skip(k)));
        lemma_concat_all_single(t.take(k));
        lemma_non_ws_add(t.take(k), concat_all(words(t.skip(k))));
        assert(t =~= t.take(k) + t.skip(k));
        lemma_non_ws_add(t.take(k), t.skip(k));
    }
}


/// Total number of characters in a list of pieces.
pub open spec fn total_len(ps: Seq<Seq<char>>) -> int
    decreases ps.len(),
{
    if ps.len() == 0 {
        0
    } else {
        total_len(ps.drop_last()) + ps.last().len()
    }
}

/// `len * t / total` rounded to the nearest integer, halves away from zero.
pub open spec fn rounded_share(len: int, t: int, total: int) -> int {
    (2 * len * t + total) / (2 * total)
}

/// `n` characters of `t` starting at `off`, cut short at the end of `t`.
pub open spec fn clamp_slice(t: Seq<char>, off: int, n: int) -> Seq<char> {
    if off >= t.len() {
        seq![]
    } else if off + n >= t.len() {
        t.skip(off)
    } else {
        t.subrange(off, off + n)
    }
}

/// The shares of `t` for parts `i..` when the share of part `i` starts at
/// `off`: each part but the last gets its rounded proportional number of
/// characters, and the last gets what remains.
pub open spec fn shares_from(t: Seq<char>, parts: Seq<Seq<char>>, total: int, i: int, off: int) -> Seq<
    Seq<char>,
>
    decreases parts.len() - i,
{
    if i >= parts.len() || i < 0 {
        seq![]
    } else {
        let portion = if i == parts.len() - 1 {
            if t.len() >= off {
                t.len() - off
            } else {
                0
            }
        } else {
            rounded_share(parts[i].len() as int, t.len() as int, total)
        };
        seq![clamp_slice(t, off, portion)] + shares_from(t, parts, total, i + 1, off + portion)
    }
}

/// `t` split into as many consecutive pieces as `parts` has, sized in
/// proportion to the lengths of `parts` (with no parts, nothing; with one
/// part, all of `t`; with parts that are all empty, empty pieces).
pub open spec fn proportional_split(t: Seq<char>, parts: Seq<Seq<char>>) -> Seq<Seq<char>> {
    if parts.len() == 0 {
        seq![]
    } else if parts.len() == 1 {
        seq![t]
    } else if total_len(parts) == 0 {
        Seq::new(parts.len(), |i: int| Seq::<char>::empty())
    } else {
        shares_from(t, parts, total_len(parts), 0, 0)
    }
}

proof fn lemma_total_len_bounds(ps: Seq<Seq<char>>)
    ensures
        total_len(ps) >= 0,
        forall|i: int| 0 <= i < ps.len() ==> (#[trigger] ps[i]).len() <= total_len(ps),
    decreases ps.len(),
{
    if ps.len() > 0 {
        lemma_total_len_bounds(ps.drop_last());
        assert forall|i: int| 0 <= i < ps.len() implies (#[trigger] ps[i]).len() <= total_len(
            ps,
        ) by {
            if i < ps.len() - 1 {
                assert(ps[i] == ps.drop_last()[i]);
            }
        }
    }
}

proof fn lemma_shares_saturate(t: Seq<char>, parts: Seq<Seq<char>>, total: int, i: int, off: int)
    requires
        off >= t.len(),
        0 <= i,
        total > 0,
        forall|k: int| 0 <= k < parts.len() ==> (#[trigger] parts[k]).len() <= total,
    ensures
        shares_from(t, parts, total, i, off) == shares_from(t, parts, total, i, t.len() as int),
    decreases parts.len() - i,
{
    if i < parts.len() {
        let p1 = if i == parts.len() - 1 {
            0
        } else {
            rounded_share(parts[i].len() as int, t.len() as int, total)
        };
        let p2 = if i == parts.len() - 1 {
            0
        } else {
            rounded_share(parts[i].len() as int, t.len() as int, total)
        };
        if i < parts.len() - 1 {
            assert(parts[i].len() <= total);
            assert(0 <= 2 * parts[i].len() * t.len() + total) by (nonlinear_arith)
                requires
                    parts[i].len() >= 0,
                    t.len() >= 0,
                    total > 0,
            ;
        }
        lemma_shares_saturate(t, parts, total, i + 1, off + p1);
        lemma_shares_saturate(t, parts, total, i + 1, t.len() + p2);
    }
}

/// The pieces put together give back `t` (from offset `off` on).
proof fn lemma_shares_concat(t: Seq<char>, parts: Seq<Seq<char>>, total: int, i: int, off: int)
    requires
        0 <= i < parts.len(),
        0 <= off,
        total > 0,
    ensures
        concat_all(shares_from(t, parts, total, i, off)) == (if off >= t.len() {
            Seq::<char>::empty()
        } else {
            t.skip(off)
        }),
    decreases parts.len() - i,
{
    let sh = shares_from(t, parts, total, i, off);
    if i == parts.len() - 1 {
        assert(shares_from(t, parts, total, i + 1, t.len() as int) =~= Seq::<Seq<char>>::empty());
        let portion = if t.len() >= off {
            t.len() - off
        } else {
            0
        };
        assert(shares_from(t, parts, total, i + 1, off + portion) =~= Seq::<Seq<char>>::empty());
        assert(sh =~= seq![clamp_slice(t, off, portion)]);
        lemma_concat_all_single(clamp_slice(t, off, portion));
    } else {
        let portion = rounded_share(parts[i].len() as int, t.len() as int, total);
        assert(0 <= 2 * parts[i].len() * t.len() + total) by (nonlinear_arith)
            requires
                parts[i].len() >= 0,
                t.len() >= 0,
                total > 0,
        ;
        assert(portion >= 0);
        lemma_shares_concat(t, parts, total, i + 1, off + portion);
        let rest = shares_from(t, parts, total, i + 1, off + portion);
        assert(sh =~= seq![clamp_slice(t, off, portion)] + rest);
        lemma_concat_all_add(seq![clamp_slice(t, off, portion)], rest);
        lemma_concat_all_single(clamp_slice(t, off, portion));
        if off < t.len() {
            if off + portion >= t.len() {
                assert(concat_all(rest) =~= Seq::<char>::empty());
                assert(clamp_slice(t, off, portion) + Seq::<char>::empty() =~= t.skip(off));
            } else {
                assert(t.subrange(off, off + portion) + t.skip(off + portion) =~= t.skip(off));
            }
        } else {
            assert(Seq::<char>::empty() + Seq::<char>::empty() =~= Seq::<char>::empty());
        }
    }
}

/// Splitting in proportion loses nothing: there is one piece per part, and
/// (unless every part is empty) the pieces put together are the text.
pub proof fn proportional_split_concat(t: Seq<char>, parts: Seq<Seq<char>>)
    requires
        parts.len() > 0,
        parts.len() == 1 || total_len(parts) > 0,
    ensures
        proportional_split(t, parts).len() == parts.len(),
        concat_all(proportional_split(t, parts)) == t,
{
    if parts.len() == 1 {
        lemma_concat_all_single(t);
    } else {
        lemma_shares_concat(t, parts, total_len(parts), 0, 0);
        assert(t.skip(0) =~= t);
        if t.len() == 0 {
            assert(concat_all(proportional_split(t, parts)) =~= t);
        }
        lemma_shares_len(t, parts, total_len(parts), 0, 0);
    }
}

pub proof fn lemma_shares_len(t: Seq<char>, parts: Seq<Seq<char>>, total: int, i: int, off: int)
    requires
        0 <= i <= parts.len(),
    ensures
        shares_from(t, parts, total, i, off).len() == parts.len() - i,
    decreases parts.len() - i,
{
    if i < parts.len() {
        let portion = if i == parts.len() - 1 {
            if t.len() >= off {
                t.len() - off
            } else {
                0
            }
        } else {
            rounded_share(parts[i].len() as int, t.len() as int, total)
        };
        lemma_shares_len(t, parts, total, i + 1, off + portion);
    }
}

fn rounded_share_exec(len: usize, t: usize, total: u128) -> (r: usize)
    requires
        total > 0,
        len <= total,
    ensures
        r == rounded_share(len as int, t as int, total as int),
        r <= t,
{
    assert((len as u128) * (t as u128) <= 0xffff_ffff_ffff_fffe_0000_0000_0000_0001u128)
        by (nonlinear_arith)
        requires
            len <= 0xffff_ffff_ffff_ffffu128,
            t <= 0xffff_ffff_ffff_ffffu128,
    ;
    let a: u128 = (len as u128) * (t as u128);
    let q = a / total;
    let r = a % total;
    let up: u128 = if r >= total - r {
        1
    } else {
        0
    };
    proof {
        vstd::arithmetic::div_mod::lemma_fundamental_div_mod(a as int, total as int);
        vstd::arithmetic::div_mod::lemma_mod_pos_bound(a as int, total as int);
        assert(a == total * q + r);
        assert(a == q * total + r) by (nonlinear_arith)
            requires
                a == total * q + r,
        ;
        if up == 1 {
            let rem: int = 2 * r - total;
            assert(2 * a + total == (q + 1) * (2 * total) + rem) by (nonlinear_arith)
                requires
                    a == q * total + r,
                    rem == 2 * r - total,
            ;
            vstd::arithmetic::div_mod::lemma_fundamental_div_mod_converse(
                (2 * a + total) as int,
                (2 * total) as int,
                (q + 1) as int,
                rem,
            );
        } else {
            let rem: int = 2 * r + total;
            assert(2 * a + total == q * (2 * total) + rem) by (nonlinear_arith)
                requires
                    a == q * total + r,
                    rem == 2 * r + total,
            ;
            vstd::arithmetic::div_mod::lemma_fundamental_div_mod_converse(
                (2 * a + total) as int,
                (2 * total) as int,
                q as int,
                rem,
            );
        }
        assert(2 * len * t == 2 * a) by (nonlinear_arith)
            requires
                a == len * t,
        ;
        assert(a <= t * total) by (nonlinear_arith)
            requires
                a == len * t,
                len <= total,
        ;
        assert(q <= t) by (nonlinear_arith)
            requires
                a == q * total + r,
                a <= t * total,
                r >= 0,
                total > 0,
        ;
        if q == t {
            assert(r == 0) by (nonlinear_arith)
                requires
                    a == q * total + r,
                    a <= t * total,
                    q == t,
                    r >= 0,
            ;
        }
    }
    (q + up) as usize
}

/// Splits `t` into pieces sized in proportion to the lengths of `parts` (see
/// `proportional_split`).
pub fn split_proportionally(t: &Vec<char>, parts: &Vec<Vec<char>>) -> (r: Vec<Vec<char>>)
    ensures
        char_views(r@) == proportional_split(t@, char_views(parts@)),
{
    let n = parts.len();
    let ghost pv = char_views(parts@);
    if n == 0 {
        return Vec::new();
    }
    if n == 1 {
        let mut r: Vec<Vec<char>> = Vec::new();
        let whole = crate::text::copy_range(t, 0, t.len());
        assert(whole@ =~= t@);
        r.push(whole);
        assert(char_views(r@) =~= seq![t@]);
        return r;
    }
    let mut total: u128 = 0;
    let mut i: usize = 0;
    while i < n
        invariant
            i <= n,
            n == parts.len(),
            pv == char_views(parts@),
            total == total_len(pv.take(i as int)),
            total <= i * 0xffff_ffff_ffff_ffffu128,
        decreases n - i,
    {
        assert(pv.take(i as int + 1).drop_last() =~= pv.take(i as int));
        assert(total + parts[i as int].len() <= (i + 1) * 0xffff_ffff_ffff_ffffu128)
            by (nonlinear_arith)
            requires
                total <= i * 0xffff_ffff_ffff_ffffu128,
                parts[i as int].len() <= 0xffff_ffff_ffff_ffffu128,
        ;
        assert((i + 1) * 0xffff_ffff_ffff_ffffu128 <= 0xffff_ffff_ffff_ffffu128
            * 0xffff_ffff_ffff_ffffu128) by (nonlinear_arith)
            requires
                i + 1 <= 0xffff_ffff_ffff_ffffu128,
        ;
        total = total + parts[i].len() as u128;
        i = i + 1;
    }
    assert(pv.take(n as int) =~= pv);
    if total == 0 {
        let mut r: Vec<Vec<char>> = Vec::new();
        let mut k: usize = 0;
        while k < n
            invariant
                k <= n,
                char_views(r@) =~= Seq::new(k as nat, |j: int| Seq::<char>::empty()),
            decreases n - k,
        {
            let ghost before = r@;
            r.push(Vec::new());
            assert(char_views(r@) =~= char_views(before).push(Seq::<char>::empty()));
            k = k + 1;
        }
        return r;
    }
    proof {
        lemma_total_len_bounds(pv);
    }
    let tl = t.len();
    let mut r: Vec<Vec<char>> = Vec::new();
    let mut off: usize = 0;
    let ghost mut goff: int = 0;
    let mut k: usize = 0;
    while k < n
        invariant
            k <= n,
            n == parts.len(),
            n >= 2,
            tl == t.len(),
            off <= tl,
            off as int == (if goff < tl {
                goff
            } else {
                tl as int
            }),
            goff >= 0,
            total > 0,
            total == total_len(pv),
            pv == char_views(parts@),
            forall|j: int| 0 <= j < pv.len() ==> (#[trigger] pv[j]).len() <= total_len(pv),
            char_views(r@) + shares_from(t@, pv, total as int, k as int, goff) == shares_from(
                t@,
                pv,
                total as int,
                0,
                0,
            ),
        decreases n - k,
    {
        let portion: usize = if k == n - 1 {
            tl - off
        } else {
            assert(pv[k as int].len() <= total_len(pv));
            rounded_share_exec(parts[k].len(), tl, total)
        };
        let ghost gportion: int = if k == n - 1 {
            if tl >= goff {
                tl - goff
            } else {
                0
            }
        } else {
            rounded_share(pv[k as int].len() as int, tl as int, total as int)
        };
        assert(portion as int == gportion || (goff >= tl && k == n - 1));
        let end: usize = if portion >= tl - off {
            tl
        } else {
            off + portion
        };
        let piece = crate::text::copy_range(t, off, end);
        assert(piece@ == clamp_slice(t@, goff, gportion)) by {
            if goff >= tl {
                assert(piece@ =~= Seq::<char>::empty());
            } else if goff + gportion >= tl {
                assert(piece@ =~= t@.skip(goff));
            } else {
                assert(piece@ =~= t@.subrange(goff, goff + gportion));
            }
        }
        let ghost before = r@;
        r.push(piece);
        assert(char_views(r@) =~= char_views(before).push(piece@));
        assert(shares_from(t@, pv, total as int, k as int, goff) =~= seq![piece@] + shares_from(
            t@,
            pv,
            total as int,
            k + 1,
            goff + gportion,
        ));
        off = end;
        proof {
            goff = goff + gportion;
        }
        k = k + 1;
    }
    assert(shares_from(t@, pv, total as int, n as int, goff) =~= Seq::<Seq<char>>::empty());
    assert(char_views(r@) + Seq::<Seq<char>>::empty() =~= char_views(r@));
    r
}


/// There is one piece per part.
pub proof fn lemma_proportional_split_len(t: Seq<char>, parts: Seq<Seq<char>>)
    ensures
        proportional_split(t, parts).len() == parts.len(),
{
    lemma_total_len_bounds(parts);
    if parts.len() > 1 && total_len(parts) != 0 {
        lemma_shares_len(t, parts, total_len(parts), 0, 0);
    }
}

} // verus!
