//! Rewriting text in PDF content streams: the source-to-translation lookup
//! table, line reflow, string encodings and the font tables written for the
//! embedded fallback font.

use vstd::prelude::*;

use crate::text::{
    char_views, chars_equal, chars_of, is_alphanumeric, join_chars, join_with, normalize_chars,
    normalized, split_whitespace, string_from_chars, unicode_alphanumeric, words,
};

verus! {

/// Drops leading characters that are not alphanumeric.
pub open spec fn strip_start_symbols(s: Seq<char>) -> Seq<char>
    decreases s.len(),
{
    if s.len() > 0 && !unicode_alphanumeric(s[0]) {
        strip_start_symbols(s.drop_first())
    } else {
        s
    }
}

/// Drops trailing characters that are not alphanumeric.
pub open spec fn strip_end_symbols(s: Seq<char>) -> Seq<char>
    decreases s.len(),
{
    if s.len() > 0 && !unicode_alphanumeric(s.last()) {
        strip_end_symbols(s.drop_last())
    } else {
        s
    }
}

/// The lookup key of a single word: whitespace collapsed, then surrounding
/// punctuation removed.
pub open spec fn word_key(s: Seq<char>) -> Seq<char> {
    strip_end_symbols(strip_start_symbols(normalized(s)))
}

/// Collapses runs of whitespace to single spaces and trims the ends.
pub fn normalize_lookup_key(text: &str) -> (r: String)
    ensures
        r@ == normalized(text@),
{
    let t = chars_of(text);
    let n = normalize_chars(&t);
    string_from_chars(n.as_slice())
}

fn word_key_chars(t: &Vec<char>) -> (r: Vec<char>)
    ensures
        r@ == word_key(t@),
{
    let n = normalize_chars(t);
    let mut a: usize = 0;
    assert(n@.skip(0) =~= n@);
    while a < n.len() && !is_alphanumeric(n[a])
        invariant
            a <= n.len(),
            strip_start_symbols(n@) == strip_start_symbols(n@.skip(a as int)),
        decreases n.len() - a,
    {
        assert(n@.skip(a as int).drop_first() =~= n@.skip(a + 1));
        a = a + 1;
    }
    let ghost u = n@.skip(a as int);
    assert(strip_start_symbols(u) == u);
    let mut b = n.len();
    assert(u.take(u.len() as int) =~= u);
    while b > a && !is_alphanumeric(n[b - 1])
        invariant
            a <= b <= n.len(),
            u == n@.skip(a as int),
            strip_end_symbols(u) == strip_end_symbols(u.take(b - a)),
        decreases b - a,
    {
        assert(u.take(b - a).drop_last() =~= u.take(b - a - 1));
        assert(u.take(b - a).last() == n@[b - 1]);
        b = b - 1;
    }
    assert(strip_end_symbols(u.take(b - a)) == u.take(b - a));
    let r = crate::text::copy_range(&n, a, b);
    assert(r@ =~= u.take(b - a));
    r
}

/// The lookup key of a single word (see `word_key`).
pub fn normalize_word_key(text: &str) -> (r: String)
    ensures
        r@ == word_key(text@),
{
    let t = chars_of(text);
    let k = word_key_chars(&t);
    string_from_chars(k.as_slice())
}

/// The target words that correspond, by position, to source words
/// `start..end` of a line with `src_len` words: both ends are scaled by
/// `tgt.len() / src_len` and rounded up, then clamped to the target.
pub open spec fn proportional_words(
    tgt: Seq<Seq<char>>,
    src_len: int,
    start: int,
    end: int,
) -> Seq<char> {
    if tgt.len() == 0 || src_len <= 0 {
        seq![]
    } else {
        let m = tgt.len() as int;
        let ts = (start * m + src_len - 1) / src_len;
        let te = (end * m + src_len - 1) / src_len;
        let ts = if ts < m {
            ts
        } else {
            m
        };
        let te = if te < m {
            te
        } else {
            m
        };
        if ts >= te {
            seq![]
        } else {
            join_with(tgt.subrange(ts, te), seq![' '])
        }
    }
}

proof fn lemma_clamped_ceil(x: int, n: int, m: int, a: int)
    requires
        n > 0,
        x >= 0,
        m > 0,
        0 <= a <= m,
        a == m || a * n >= x,
        a == 0 || (a - 1) * n < x,
    ensures
        a == (if (x + n - 1) / n < m {
            (x + n - 1) / n
        } else {
            m
        }),
{
    let q = (x + n - 1) / n;
    vstd::arithmetic::div_mod::lemma_fundamental_div_mod(x + n - 1, n);
    vstd::arithmetic::div_mod::lemma_mod_pos_bound(x + n - 1, n);
    assert(q * n >= x && (q - 1) * n < x) by (nonlinear_arith)
        requires
            x + n - 1 == n * q + (x + n - 1) % n,
            0 <= (x + n - 1) % n < n,
    ;
    assert(q >= 0) by (nonlinear_arith)
        requires
            q * n >= x,
            (q - 1) * n < x,
            x >= 0,
            n > 0,
    ;
    if a < m {
        assert(a == q) by (nonlinear_arith)
            requires
                a * n >= x,
                a == 0 || (a - 1) * n < x,
                q * n >= x,
                (q - 1) * n < x,
                n > 0,
                a >= 0,
                q >= 0,
        ;
    } else {
        assert(q >= m) by (nonlinear_arith)
            requires
                (m - 1) * n < x,
                q * n >= x,
                n > 0,
                m > 0,
        ;
    }
}

/// Source words `start..end` of a line with `n` source words and `m` target
/// words take the target words from `a` to `b`, where `a` is the first target
/// position at or past the proportional position of `start` (`a * n >=
/// start * m`, and not one position earlier) or the end of the target, and
/// `b` likewise for `end`; an empty range gives nothing.
pub proof fn proportional_words_scale(
    tgt: Seq<Seq<char>>,
    n: int,
    start: int,
    end: int,
    a: int,
    b: int,
)
    requires
        n > 0,
        tgt.len() > 0,
        0 <= start,
        0 <= end,
        0 <= a <= tgt.len(),
        a == tgt.len() || a * n >= start * tgt.len(),
        a == 0 || (a - 1) * n < start * tgt.len(),
        0 <= b <= tgt.len(),
        b == tgt.len() || b * n >= end * tgt.len(),
        b == 0 || (b - 1) * n < end * tgt.len(),
    ensures
        proportional_words(tgt, n, start, end) == if a < b {
            join_with(tgt.subrange(a, b), seq![' '])
        } else {
            seq![]
        },
{
    let m = tgt.len() as int;
    assert(start * m >= 0 && end * m >= 0) by (nonlinear_arith)
        requires
            start >= 0,
            end >= 0,
            m >= 0,
    ;
    lemma_clamped_ceil(start * m, n, m, a);
    lemma_clamped_ceil(end * m, n, m, b);
}

proof fn lemma_join_with_len(ws: Seq<Seq<char>>, sep: Seq<char>)
    requires
        ws.len() > 0,
    ensures
        join_with(ws, sep).len() >= ws[0].len(),
{
}

/// A span that runs to the end of a line gets the end of the translation:
/// the whole line gets all of it, and a span whose start falls at least one
/// target word before the end (`start * m <= (m - 1) * n`) gets a non-empty
/// run of target words ending with the last one.
pub proof fn line_end_span_is_translated(tgt: Seq<Seq<char>>, n: int, start: int)
    requires
        n > 0,
        tgt.len() > 0,
        forall|i: int| 0 <= i < tgt.len() ==> (#[trigger] tgt[i]).len() > 0,
        0 <= start,
        start * tgt.len() <= (tgt.len() - 1) * n,
    ensures
        proportional_words(tgt, n, 0, n) == join_with(tgt, seq![' ']),
        proportional_words(tgt, n, start, n).len() > 0,
        exists|a: int|
            0 <= a < tgt.len() && proportional_words(tgt, n, start, n) == join_with(
                #[trigger] tgt.subrange(a, tgt.len() as int),
                seq![' '],
            ),
{
    let m = tgt.len() as int;
    assert((m - 1) * n < n * m) by (nonlinear_arith)
        requires
            n > 0,
            m > 0,
    ;
    assert(m * n >= n * m) by (nonlinear_arith);
    proportional_words_scale(tgt, n, 0, n, 0, m);
    assert(tgt.subrange(0, m) =~= tgt);
    let x = start * m;
    assert(0 <= x) by (nonlinear_arith)
        requires
            0 <= start,
            m > 0,
            x == start * m,
    ;
    let q = (x + n - 1) / n;
    vstd::arithmetic::div_mod::lemma_fundamental_div_mod(x + n - 1, n);
    vstd::arithmetic::div_mod::lemma_mod_pos_bound(x + n - 1, n);
    assert(q * n >= x && (q - 1) * n < x && q >= 0 && q < m) by (nonlinear_arith)
        requires
            x + n - 1 == n * q + (x + n - 1) % n,
            0 <= (x + n - 1) % n < n,
            0 <= x <= (m - 1) * n,
            n > 0,
    ;
    proportional_words_scale(tgt, n, start, n, q, m);
    lemma_join_with_len(tgt.subrange(q, m), seq![' ']);
    assert(tgt.subrange(q, m)[0] == tgt[q]);
}

fn ceil_scaled(i: usize, m: usize, src_len: usize) -> (r: usize)
    requires
        src_len > 0,
    ensures
        r == (if (i * m + src_len - 1) / (src_len as int) < m {
            (i * m + src_len - 1) / (src_len as int)
        } else {
            m as int
        }),
{
    assert((i as u128) * (m as u128) <= 0xffff_ffff_ffff_fffe_0000_0000_0000_0001u128)
        by (nonlinear_arith)
        requires
            i <= 0xffff_ffff_ffff_ffffu128,
            m <= 0xffff_ffff_ffff_ffffu128,
    ;
    let p: u128 = (i as u128) * (m as u128);
    let q: u128 = (p + (src_len as u128) - 1) / (src_len as u128);
    if q < m as u128 {
        q as usize
    } else {
        m
    }
}

/// Joins the target words that correspond to source words `start..end`.
fn proportional_target_words(
    tgt_words: &Vec<Vec<char>>,
    src_len: usize,
    start: usize,
    end: usize,
) -> (r: Vec<char>)
    ensures
        r@ == proportional_words(char_views(tgt_words@), src_len as int, start as int, end as int),
{
    if tgt_words.len() == 0 || src_len == 0 {
        return Vec::new();
    }
    let m = tgt_words.len();
    let t_start = ceil_scaled(start, m, src_len);
    let t_end = ceil_scaled(end, m, src_len);
    if t_start >= t_end {
        return Vec::new();
    }
    let mut part: Vec<Vec<char>> = Vec::new();
    let mut k = t_start;
    while k < t_end
        invariant
            t_start <= k <= t_end <= tgt_words.len(),
            char_views(part@) == char_views(tgt_words@).subrange(t_start as int, k as int),
        decreases t_end - k,
    {
        let w = crate::text::copy_range(&tgt_words[k], 0, tgt_words[k].len());
        assert(w@ =~= tgt_words@[k as int]@);
        let ghost before = part@;
        part.push(w);
        assert(char_views(part@) =~= char_views(before).push(w@));
        k = k + 1;
        assert(char_views(part@) =~= char_views(tgt_words@).subrange(t_start as int, k as int));
    }
    let sep = vec![' '];
    assert(sep@ =~= seq![' ']);
    join_chars(&part, &sep)
}

/// The first value stored under `key`, if any.
pub open spec fn first_value(entries: Seq<(Seq<char>, Seq<char>)>, key: Seq<char>) -> Option<
    Seq<char>,
>
    decreases entries.len(),
{
    if entries.len() == 0 {
        None
    } else if entries[0].0 == key {
        Some(entries[0].1)
    } else {
        first_value(entries.drop_first(), key)
    }
}

/// The translations found word by word, in order, for the words of a key.
pub open spec fn word_hits(entries: Seq<(Seq<char>, Seq<char>)>, ws: Seq<Seq<char>>) -> Seq<
    Seq<char>,
>
    decreases ws.len(),
{
    if ws.len() == 0 {
        seq![]
    } else {
        let rest = word_hits(entries, ws.drop_last());
        match first_value(entries, word_key(ws.last())) {
            Some(t) => rest.push(t),
            None => rest,
        }
    }
}

/// The translation looked up for a text fragment: the entry for its
/// whitespace-collapsed form, or else the entries of its single words joined
/// by spaces, or nothing when neither exists or the fragment is blank.
pub open spec fn context_lookup(entries: Seq<(Seq<char>, Seq<char>)>, text: Seq<char>) -> Option<
    Seq<char>,
> {
    let key = normalized(text);
    if key.len() == 0 {
        None
    } else {
        match first_value(entries, key) {
            Some(t) => Some(t),
            None => {
                let parts = word_hits(entries, words(key));
                if parts.len() == 0 {
                    None
                } else {
                    Some(join_with(parts, seq![' ']))
                }
            },
        }
    }
}

/// The two entries for source words `start..end` of a line (the span key and
/// its word key, both mapped to the proportional target words), or none when
/// either side is empty.
pub open spec fn span_entries(
    sw: Seq<Seq<char>>,
    tw: Seq<Seq<char>>,
    start: int,
    end: int,
) -> Seq<(Seq<char>, Seq<char>)> {
    let key = normalized(join_with(sw.subrange(start, end), seq![' ']));
    let tr = proportional_words(tw, sw.len() as int, start, end);
    if key.len() == 0 || tr.len() == 0 {
        seq![]
    } else {
        seq![(key, tr), (word_key(key), tr)]
    }
}

/// The entries for the spans of lengths `1..=n` that start at `start`.
pub open spec fn row_entries(sw: Seq<Seq<char>>, tw: Seq<Seq<char>>, start: int, n: int) -> Seq<
    (Seq<char>, Seq<char>),
>
    decreases n,
{
    if n <= 0 {
        seq![]
    } else {
        row_entries(sw, tw, start, n - 1) + span_entries(sw, tw, start, start + n)
    }
}

/// The longest span (in words) that gets its own entry.
pub open spec fn max_span() -> int {
    8
}

/// How many spans start at `start`: up to `max_span()` words, within the line.
pub open spec fn spans_at(n: int, start: int) -> int {
    let cap = if n < max_span() {
        n
    } else {
        max_span()
    };
    if cap < n - start {
        cap
    } else {
        n - start
    }
}

/// The entries for all spans starting before `k`.
pub open spec fn rows_entries(sw: Seq<Seq<char>>, tw: Seq<Seq<char>>, k: int) -> Seq<
    (Seq<char>, Seq<char>),
>
    decreases k,
{
    if k <= 0 {
        seq![]
    } else {
        rows_entries(sw, tw, k - 1) + row_entries(sw, tw, k - 1, spans_at(sw.len() as int, k - 1))
    }
}

/// The entries one translated line contributes: its whole normalized source
/// first, then (when both sides have words) every span of up to eight source
/// words with the proportional part of the translation.
pub open spec fn line_entries(src: Seq<char>, tgt: Seq<char>) -> Seq<(Seq<char>, Seq<char>)> {
    let sw = words(src);
    let tw = words(tgt);
    seq![(normalized(src), tgt)] + if sw.len() == 0 || tw.len() == 0 {
        seq![]
    } else {
        rows_entries(sw, tw, sw.len() as int)
    }
}

/// The entries of all lines, in order; a lookup uses the first entry for a key.
pub open spec fn context_entries(lines: Seq<(Seq<char>, Seq<char>)>) -> Seq<
    (Seq<char>, Seq<char>),
>
    decreases lines.len(),
{
    if lines.len() == 0 {
        seq![]
    } else {
        context_entries(lines.drop_last()) + line_entries(lines.last().0, lines.last().1)
    }
}

/// The views of (source, translation) string pairs.
pub open spec fn pair_views(v: Seq<(String, String)>) -> Seq<(Seq<char>, Seq<char>)> {
    v.map_values(|p: (String, String)| (p.0@, p.1@))
}

/// The views of stored entries.
pub open spec fn entry_views(v: Seq<(Vec<char>, Vec<char>)>) -> Seq<(Seq<char>, Seq<char>)> {
    v.map_values(|p: (Vec<char>, Vec<char>)| (p.0@, p.1@))
}

/// The view of an optional string.
pub open spec fn opt_view(o: Option<String>) -> Option<Seq<char>> {
    match o {
        Some(s) => Some(s@),
        None => None,
    }
}

/// Source-fragment to translation table for one document. When two entries
/// share a key, the earlier one is used.
pub struct TranslationContext {
    entries: Vec<(Vec<char>, Vec<char>)>,
}

impl View for TranslationContext {
    type V = Seq<(Seq<char>, Seq<char>)>;

    closed spec fn view(&self) -> Seq<(Seq<char>, Seq<char>)> {
        entry_views(self.entries@)
    }
}

impl TranslationContext {
    /// Per-page bookkeeping hook; the table is the same on every page.
    pub fn reset_page(&mut self)
        ensures
            final(self)@ == old(self)@,
    {
    }

    fn first_value_of(&self, key: &Vec<char>) -> (r: Option<Vec<char>>)
        ensures
            match r {
                Some(v) => first_value(self@, key@) == Some(v@),
                None => first_value(self@, key@) is None,
            },
    {
        let mut i: usize = 0;
        assert(self@.skip(0) =~= self@);
        while i < self.entries.len()
            invariant
                i <= self.entries.len(),
                first_value(self@, key@) == first_value(self@.skip(i as int), key@),
            decreases self.entries.len() - i,
        {
            assert(self@.skip(i as int)[0] == (self.entries@[i as int].0@, self.entries@[
                i as int
            ].1@));
            if chars_equal(&self.entries[i].0, key) {
                return Some(self.entries[i].1.clone());
            }
            assert(self@.skip(i as int).drop_first() =~= self@.skip(i + 1));
            i = i + 1;
        }
        assert(self@.skip(i as int) =~= Seq::<(Seq<char>, Seq<char>)>::empty());
        None
    }

    /// The translation of a text fragment (see `context_lookup`).
    pub fn lookup(&self, text: &str) -> (r: Option<String>)
        ensures
            opt_view(r) == context_lookup(self@, text@),
    {
        let t = chars_of(text);
        let key = normalize_chars(&t);
        if key.len() == 0 {
            return None;
        }
        if let Some(v) = self.first_value_of(&key) {
            return Some(string_from_chars(v.as_slice()));
        }
        let ws = split_whitespace(&key);
        let mut parts: Vec<Vec<char>> = Vec::new();
        let mut i: usize = 0;
        while i < ws.len()
            invariant
                i <= ws.len(),
                char_views(parts@) == word_hits(self@, char_views(ws@).take(i as int)),
            decreases ws.len() - i,
        {
            let stripped = word_key_chars(&ws[i]);
            let ghost before = parts@;
            assert(char_views(ws@).take(i as int + 1).drop_last() =~= char_views(ws@).take(
                i as int,
            ));
            if let Some(v) = self.first_value_of(&stripped) {
                parts.push(v);
                assert(char_views(parts@) =~= char_views(before).push(v@));
            }
            i = i + 1;
        }
        assert(char_views(ws@).take(ws.len() as int) =~= char_views(ws@));
        if parts.len() == 0 {
            None
        } else {
            let sep = vec![' '];
            assert(sep@ =~= seq![' ']);
            let joined = join_chars(&parts, &sep);
            Some(string_from_chars(joined.as_slice()))
        }
    }
}


fn copy_chars(v: &Vec<char>) -> (r: Vec<char>)
    ensures
        r@ == v@,
{
    let r = crate::text::copy_range(v, 0, v.len());
    assert(r@ =~= v@);
    r
}

fn push_span_entries(
    entries: &mut Vec<(Vec<char>, Vec<char>)>,
    sw: &Vec<Vec<char>>,
    tw: &Vec<Vec<char>>,
    start: usize,
    end: usize,
)
    requires
        start <= end <= sw.len(),
    ensures
        entry_views(final(entries)@) == entry_views(old(entries)@) + span_entries(
            char_views(sw@),
            char_views(tw@),
            start as int,
            end as int,
        ),
{
    let mut span: Vec<Vec<char>> = Vec::new();
    let mut k = start;
    while k < end
        invariant
            start <= k <= end <= sw.len(),
            char_views(span@) == char_views(sw@).subrange(start as int, k as int),
        decreases end - k,
    {
        let w = copy_chars(&sw[k]);
        let ghost before = span@;
        span.push(w);
        assert(char_views(span@) =~= char_views(before).push(w@));
        k = k + 1;
        assert(char_views(span@) =~= char_views(sw@).subrange(start as int, k as int));
    }
    let sep = vec![' '];
    assert(sep@ =~= seq![' ']);
    let joined = join_chars(&span, &sep);
    let key = normalize_chars(&joined);
    if key.len() == 0 {
        assert(entry_views(entries@) + Seq::<(Seq<char>, Seq<char>)>::empty() =~= entry_views(
            entries@,
        ));
        return;
    }
    let tr = proportional_target_words(tw, sw.len(), start, end);
    if tr.len() == 0 {
        assert(entry_views(entries@) + Seq::<(Seq<char>, Seq<char>)>::empty() =~= entry_views(
            entries@,
        ));
        return;
    }
    let wk = word_key_chars(&key);
    let ghost before = entries@;
    entries.push((copy_chars(&key), copy_chars(&tr)));
    entries.push((wk, tr));
    assert(entry_views(entries@) =~= entry_views(before) + seq![(key@, tr@), (wk@, tr@)]);
}

fn push_line_entries(entries: &mut Vec<(Vec<char>, Vec<char>)>, src: &Vec<char>, tgt: &Vec<char>)
    ensures
        entry_views(final(entries)@) == entry_views(old(entries)@) + line_entries(src@, tgt@),
{
    let ghost start_entries = entry_views(entries@);
    let sw = split_whitespace(src);
    let tw = split_whitespace(tgt);
    let line_key = normalize_chars(src);
    entries.push((line_key, copy_chars(tgt)));
    let ghost first = seq![(normalized(src@), tgt@)];
    assert(entry_views(entries@) =~= start_entries + first);
    if sw.len() == 0 || tw.len() == 0 {
        assert(entry_views(entries@) =~= start_entries + line_entries(src@, tgt@));
        return;
    }
    let ghost swv = char_views(sw@);
    let ghost twv = char_views(tw@);
    let n = sw.len();
    let max_n: usize = if n < 8 {
        n
    } else {
        8
    };
    let mut start: usize = 0;
    while start < n
        invariant
            start <= n,
            n == sw.len(),
            max_n == (if n < 8 {
                n
            } else {
                8
            }),
            swv == char_views(sw@),
            twv == char_views(tw@),
            entry_views(entries@) == start_entries + first + rows_entries(swv, twv, start as int),
        decreases n - start,
    {
        let count: usize = if max_n < n - start {
            max_n
        } else {
            n - start
        };
        assert(count == spans_at(n as int, start as int));
        let mut len: usize = 1;
        while len <= count
            invariant
                1 <= len <= count + 1,
                count <= 8,
                start < n,
                count <= n - start,
                n == sw.len(),
                swv == char_views(sw@),
                twv == char_views(tw@),
                entry_views(entries@) == start_entries + first + rows_entries(
                    swv,
                    twv,
                    start as int,
                ) + row_entries(swv, twv, start as int, len - 1),
            decreases count + 1 - len,
        {
            let ghost before = entry_views(entries@);
            push_span_entries(entries, &sw, &tw, start, start + len);
            assert(row_entries(swv, twv, start as int, len as int) == row_entries(
                swv,
                twv,
                start as int,
                len - 1,
            ) + span_entries(swv, twv, start as int, start + len));
            assert(entry_views(entries@) =~= start_entries + first + rows_entries(
                swv,
                twv,
                start as int,
            ) + row_entries(swv, twv, start as int, len as int));
            len = len + 1;
        }
        assert(rows_entries(swv, twv, start + 1) == rows_entries(swv, twv, start as int)
            + row_entries(swv, twv, start as int, spans_at(n as int, start as int)));
        assert(entry_views(entries@) =~= start_entries + first + rows_entries(
            swv,
            twv,
            start + 1,
        ));
        start = start + 1;
    }
    assert(entry_views(entries@) =~= start_entries + line_entries(src@, tgt@));
}

/// Builds the lookup table for a set of translated lines: for each line, in
/// order, its whitespace-collapsed source text, then every span of up to eight
/// source words (and the span's punctuation-free word key), each mapped to the
/// proportional share of the translated words.
pub fn build_translation_context(lines: &Vec<(String, String)>) -> (ctx: TranslationContext)
    ensures
        ctx@ == context_entries(pair_views(lines@)),
{
    let mut entries: Vec<(Vec<char>, Vec<char>)> = Vec::new();
    let mut li: usize = 0;
    while li < lines.len()
        invariant
            li <= lines.len(),
            entry_views(entries@) == context_entries(pair_views(lines@).take(li as int)),
        decreases lines.len() - li,
    {
        let src = chars_of(lines[li].0.as_str());
        let tgt = chars_of(lines[li].1.as_str());
        push_line_entries(&mut entries, &src, &tgt);
        let ghost ls = pair_views(lines@).take(li as int + 1);
        assert(ls.drop_last() =~= pair_views(lines@).take(li as int));
        assert(ls.last() == (src@, tgt@));
        li = li + 1;
    }
    assert(pair_views(lines@).take(lines.len() as int) =~= pair_views(lines@));
    TranslationContext { entries }
}

proof fn lemma_first_line_value(lines: Seq<(Seq<char>, Seq<char>)>)
    requires
        lines.len() > 0,
    ensures
        first_value(context_entries(lines), normalized(lines[0].0)) == Some(lines[0].1),
    decreases lines.len(),
{
    let key = normalized(lines[0].0);
    if lines.len() == 1 {
        assert(context_entries(lines.drop_last()) =~= seq![]);
        assert(context_entries(lines) =~= line_entries(lines[0].0, lines[0].1));
        assert(line_entries(lines[0].0, lines[0].1)[0] == (key, lines[0].1));
    } else {
        assert(lines.drop_last()[0] == lines[0]);
        lemma_first_line_value(lines.drop_last());
        lemma_first_value_prefix(
            context_entries(lines.drop_last()),
            line_entries(lines.last().0, lines.last().1),
            key,
        );
    }
}

/// Looking up the first line's own source text gives that line's translation,
/// provided the text is not blank.
pub proof fn lookup_finds_first_line(lines: Seq<(Seq<char>, Seq<char>)>)
    requires
        lines.len() > 0,
        normalized(lines[0].0).len() > 0,
    ensures
        context_lookup(context_entries(lines), lines[0].0) == Some(lines[0].1),
{
    lemma_first_line_value(lines);
}

proof fn lemma_line_key_found(lines: Seq<(Seq<char>, Seq<char>)>, i: int)
    requires
        0 <= i < lines.len(),
    ensures
        first_value(context_entries(lines), normalized(lines[i].0)) is Some,
    decreases lines.len(),
{
    let key = normalized(lines[i].0);
    let a = context_entries(lines.drop_last());
    let b = line_entries(lines.last().0, lines.last().1);
    if i == lines.len() - 1 {
        assert(b[0] == (key, lines.last().1));
        lemma_first_value_some_suffix(a, b, key);
    } else {
        assert(lines.drop_last()[i] == lines[i]);
        lemma_line_key_found(lines.drop_last(), i);
        lemma_first_value_prefix(a, b, key);
    }
}

/// Every line whose source text is not blank can be looked up by that text.
pub proof fn lookup_finds_every_line(lines: Seq<(Seq<char>, Seq<char>)>, i: int)
    requires
        0 <= i < lines.len(),
        normalized(lines[i].0).len() > 0,
    ensures
        context_lookup(context_entries(lines), lines[i].0) is Some,
{
    lemma_line_key_found(lines, i);
}

/// A key found in a prefix of the entries keeps its value when more entries
/// follow.
pub proof fn lemma_first_value_prefix(
    a: Seq<(Seq<char>, Seq<char>)>,
    b: Seq<(Seq<char>, Seq<char>)>,
    key: Seq<char>,
)
    requires
        first_value(a, key) is Some,
    ensures
        first_value(a + b, key) == first_value(a, key),
    decreases a.len(),
{
    assert((a + b)[0] == a[0]);
    if a[0].0 != key {
        assert((a + b).drop_first() =~= a.drop_first() + b);
        lemma_first_value_prefix(a.drop_first(), b, key);
    }
}

/// A key whose first entry lies in `b` is found in `a + b` as well.
pub proof fn lemma_first_value_some_suffix(
    a: Seq<(Seq<char>, Seq<char>)>,
    b: Seq<(Seq<char>, Seq<char>)>,
    key: Seq<char>,
)
    requires
        b.len() > 0,
        b[0].0 == key,
    ensures
        first_value(a + b, key) is Some,
    decreases a.len(),
{
    if a.len() == 0 {
        assert(a + b =~= b);
    } else {
        assert((a + b)[0] == a[0]);
        if a[0].0 != key {
            assert((a + b).drop_first() =~= a.drop_first() + b);
            lemma_first_value_some_suffix(a.drop_first(), b, key);
        }
    }
}


/// Whether a translation needs the fallback (non-Latin) font: it has a
/// character outside ASCII.
pub fn needs_fallback_font(text: &str) -> (b: bool)
    ensures
        b == crate::layout::has_non_ascii(text@),
{
    let t = chars_of(text);
    let mut i: usize = 0;
    while i < t.len()
        invariant
            i <= t.len(),
            t@ == text@,
            forall|k: int| 0 <= k < i ==> (t@[k] as u32) <= 0x7F,
        decreases t.len() - i,
    {
        if t[i] as u32 > 0x7F {
            return true;
        }
        i = i + 1;
    }
    false
}

/// The character kept in a PDF name: ASCII letters, digits, `-` and `_`
/// stay, anything else becomes `_`.
pub open spec fn name_char(c: char) -> char {
    if ('a' <= c && c <= 'z') || ('A' <= c && c <= 'Z') || ('0' <= c && c <= '9') || c == '-'
        || c == '_' {
        c
    } else {
        '_'
    }
}

/// A font name made safe for use as a PDF name, or `fallback` when it is
/// empty.
pub open spec fn sanitized_name(name: Seq<char>, fallback: Seq<char>) -> Seq<char> {
    if name.len() == 0 {
        fallback
    } else {
        name.map_values(|c: char| name_char(c))
    }
}

/// Makes a font name safe for use as a PDF name (see `sanitized_name`).
pub fn sanitize_pdf_name(name: &str, fallback: &str) -> (r: String)
    ensures
        r@ == sanitized_name(name@, fallback@),
{
    let t = chars_of(name);
    let mut out: Vec<char> = Vec::new();
    let mut i: usize = 0;
    while i < t.len()
        invariant
            i <= t.len(),
            out@ == t@.take(i as int).map_values(|c: char| name_char(c)),
        decreases t.len() - i,
    {
        let c = t[i];
        let k = if ('a' <= c && c <= 'z') || ('A' <= c && c <= 'Z') || ('0' <= c && c <= '9') || c
            == '-' || c == '_' {
            c
        } else {
            '_'
        };
        out.push(k);
        i = i + 1;
        assert(out@ =~= t@.take(i as int).map_values(|c: char| name_char(c)));
    }
    assert(t@.take(t.len() as int) =~= t@);
    if out.len() == 0 {
        fallback.to_owned()
    } else {
        string_from_chars(out.as_slice())
    }
}

/// The character sequences of some strings.
pub fn chars_of_all(v: &Vec<String>) -> (r: Vec<Vec<char>>)
    ensures
        char_views(r@) == crate::translate::sentence::views(v@),
{
    let mut r: Vec<Vec<char>> = Vec::new();
    let mut i: usize = 0;
    while i < v.len()
        invariant
            i <= v.len(),
            char_views(r@) == crate::translate::sentence::views(v@).take(i as int),
        decreases v.len() - i,
    {
        let c = chars_of(v[i].as_str());
        let ghost before = r@;
        r.push(c);
        assert(char_views(r@) =~= char_views(before).push(c@));
        i = i + 1;
        assert(char_views(r@) =~= crate::translate::sentence::views(v@).take(i as int));
    }
    assert(crate::translate::sentence::views(v@).take(v.len() as int) =~= crate::translate::sentence::views(v@));
    r
}

/// Splits a translation over the string slots of a `TJ` array in proportion
/// to the lengths of the original strings (see `proportional_split`).
pub fn redistribute_by_length(translated: &str, original_parts: &Vec<String>) -> (r: Vec<String>)
    ensures
        crate::translate::sentence::views(r@) == crate::layout::proportional_split(
            translated@,
            crate::translate::sentence::views(original_parts@),
        ),
{
    let t = chars_of(translated);
    let parts = chars_of_all(original_parts);
    let pieces = crate::layout::split_proportionally(&t, &parts);
    crate::layout::strings_of(&pieces)
}


/// How one text-showing operator is rewritten.
#[derive(Debug)]
pub enum TextPlan {
    /// Leave the operator as it is.
    Keep,
    /// Show these lines with the embedded fallback font.
    Shaped(Vec<String>),
    /// Show these encoded lines in the current font (one line replaces the
    /// string in place; several are shown line by line).
    Encoded(Vec<Vec<u8>>),
}

/// The lines a fragment is rewritten as, or nothing when it is blank or has
/// no translation.
pub open spec fn replacement_lines(entries: Seq<(Seq<char>, Seq<char>)>, original: Seq<char>) -> Option<
    Seq<Seq<char>>,
> {
    if crate::text::trim(original).len() == 0 {
        None
    } else {
        match context_lookup(entries, original) {
            None => None,
            Some(t) => Some(crate::layout::reflow_lines_spec(original, t)),
        }
    }
}

/// Whether the translation of a fragment needs the fallback font.
pub open spec fn needs_fallback(entries: Seq<(Seq<char>, Seq<char>)>, original: Seq<char>) -> bool {
    context_lookup(entries, original) matches Some(t) && crate::layout::has_non_ascii(t)
}

/// The views of byte vectors.
pub open spec fn byte_views(v: Seq<Vec<u8>>) -> Seq<Seq<u8>> {
    v.map_values(|b: Vec<u8>| b@)
}

/// Every line encoded with the hint.
pub open spec fn encoded_lines(ls: Seq<Seq<char>>, h: crate::formats::pdf::encoding::EncodingHint) -> Seq<
    Seq<u8>,
> {
    ls.map_values(|l: Seq<char>| crate::formats::pdf::encoding::encoded_with_hint(l, h))
}

fn encode_all(lines: &Vec<String>, hint: crate::formats::pdf::encoding::EncodingHint) -> (r: Vec<Vec<u8>>)
    ensures
        byte_views(r@) == encoded_lines(crate::translate::sentence::views(lines@), hint),
{
    let mut r: Vec<Vec<u8>> = Vec::new();
    let mut i: usize = 0;
    while i < lines.len()
        invariant
            i <= lines.len(),
            byte_views(r@) == encoded_lines(crate::translate::sentence::views(lines@), hint).take(
                i as int,
            ),
        decreases lines.len() - i,
    {
        let b = crate::formats::pdf::encoding::encode_with_hint(lines[i].as_str(), hint);
        let ghost before = r@;
        r.push(b);
        assert(byte_views(r@) =~= byte_views(before).push(b@));
        i = i + 1;
        assert(byte_views(r@) =~= encoded_lines(crate::translate::sentence::views(lines@), hint).take(
            i as int,
        ));
    }
    assert(encoded_lines(crate::translate::sentence::views(lines@), hint).take(lines.len() as int)
        =~= encoded_lines(crate::translate::sentence::views(lines@), hint));
    r
}

fn is_blank_str(s: &str) -> (b: bool)
    ensures
        b == (crate::text::trim(s@).len() == 0),
{
    let c = chars_of(s);
    let k = crate::text::skip_ws(&c, 0);
    proof {
        assert(c@.skip(0) =~= c@);
        crate::text::lemma_trim_empty_iff_all_ws(c@);
        if k < c.len() {
            assert(!crate::text::is_ws(c@[k as int]));
        }
    }
    k == c.len()
}

/// How a `Tj`, `'` or `"` operator showing the string `bytes` is rewritten:
/// kept when the text is blank or untranslated; shown with the fallback font
/// when the translation has non-ASCII characters; otherwise re-encoded in the
/// string's own encoding, as one line or several.
pub fn plan_text_replacement(ctx: &TranslationContext, bytes: &[u8]) -> (plan: TextPlan)
    ensures
        ({
            let (original, hint) = crate::formats::pdf::encoding::pdf_string_decoded(bytes@);
            match replacement_lines(ctx@, original) {
                None => plan is Keep,
                Some(ls) => if needs_fallback(ctx@, original) {
                    plan matches TextPlan::Shaped(v) && crate::translate::sentence::views(v@) == ls
                } else {
                    plan matches TextPlan::Encoded(v) && byte_views(v@) == encoded_lines(ls, hint)
                },
            }
        }),
{
    let (original, hint) = crate::formats::pdf::encoding::decode_pdf_string(bytes);
    if is_blank_str(original.as_str()) {
        return TextPlan::Keep;
    }
    let translated = match ctx.lookup(original.as_str()) {
        Some(t) => t,
        None => {
            return TextPlan::Keep;
        },
    };
    let lines = crate::layout::reflow_lines(original.as_str(), translated.as_str());
    if needs_fallback_font(translated.as_str()) {
        TextPlan::Shaped(lines)
    } else {
        TextPlan::Encoded(encode_all(&lines, hint))
    }
}

/// An element of a `TJ` array, as far as rewriting needs it.
#[derive(Debug)]
pub enum TjItem {
    /// A string operand.
    Text(Vec<u8>),
    /// A position adjustment; `is_space` when it is wide enough to stand for
    /// a word space.
    Kern { is_space: bool },
    /// Anything else.
    Other,
}

/// How a `TJ` operator is rewritten.
#[derive(Debug)]
pub enum TjPlan {
    /// Leave the operator as it is.
    Keep,
    /// Show these lines with the embedded fallback font.
    Shaped(Vec<String>),
    /// Keep the array and its spacing; replace the string at each index with
    /// the given bytes.
    Slots(Vec<(usize, Vec<u8>)>),
    /// Show these encoded lines line by line.
    Lines(Vec<Vec<u8>>),
}

/// The text of the first `k` items of a `TJ` array: the strings decoded and
/// joined, with one space for each wide adjustment that does not follow a
/// space.
pub open spec fn tj_text(items: Seq<TjItem>, k: int) -> Seq<char>
    decreases k,
{
    if k <= 0 {
        seq![]
    } else {
        let t = tj_text(items, k - 1);
        match items[k - 1] {
            TjItem::Text(b) => t + crate::formats::pdf::encoding::pdf_string_decoded(b@).0,
            TjItem::Kern { is_space } => if is_space && !(t.len() > 0 && t.last() == ' ') {
                t.push(' ')
            } else {
                t
            },
            TjItem::Other => t,
        }
    }
}

/// The strings of the first `k` items of a `TJ` array, with their indices.
pub open spec fn tj_strings(items: Seq<TjItem>, k: int) -> Seq<(int, Seq<u8>)>
    decreases k,
{
    if k <= 0 {
        seq![]
    } else {
        let t = tj_strings(items, k - 1);
        match items[k - 1] {
            TjItem::Text(b) => t.push((k - 1, b@)),
            _ => t,
        }
    }
}

/// The decoded text of each string of a `TJ` array.
pub open spec fn tj_parts(strings: Seq<(int, Seq<u8>)>) -> Seq<Seq<char>> {
    strings.map_values(|s: (int, Seq<u8>)| crate::formats::pdf::encoding::pdf_string_decoded(s.1).0)
}

/// The encoding used to write back a `TJ` array: that of its first string.
pub open spec fn tj_hint(strings: Seq<(int, Seq<u8>)>) -> crate::formats::pdf::encoding::EncodingHint {
    if strings.len() == 0 {
        crate::formats::pdf::encoding::EncodingHint::SingleByte
    } else {
        crate::formats::pdf::encoding::pdf_string_decoded(strings[0].1).1
    }
}

/// The slot replacements of a one-line `TJ` rewrite: the translation spread
/// over the strings in proportion to their lengths, each share encoded with
/// the array's encoding.
pub open spec fn tj_slots(strings: Seq<(int, Seq<u8>)>, translated: Seq<char>) -> Seq<(int, Seq<u8>)> {
    let shares = crate::layout::proportional_split(translated, tj_parts(strings));
    Seq::new(
        strings.len(),
        |i: int|
            (strings[i].0, crate::formats::pdf::encoding::encoded_with_hint(shares[i], tj_hint(strings))),
    )
}

/// How a `TJ` operator is rewritten: kept when it has no string, its text is
/// blank or untranslated; shown with the fallback font when the translation
/// has non-ASCII characters; otherwise, when the translation fits on one
/// line, spread over the original strings (keeping the spacing), else shown
/// line by line.
pub fn plan_tj_replacement(ctx: &TranslationContext, items: &Vec<TjItem>) -> (plan: TjPlan)
    ensures
        ({
            let n = items@.len() as int;
            let full = tj_text(items@, n);
            let strings = tj_strings(items@, n);
            if strings.len() == 0 || crate::text::trim(full).len() == 0 {
                plan is Keep
            } else {
                match context_lookup(ctx@, full) {
                    None => plan is Keep,
                    Some(t) => {
                        let ls = crate::layout::reflow_lines_spec(full, t);
                        if crate::layout::has_non_ascii(t) {
                            plan matches TjPlan::Shaped(v) && crate::translate::sentence::views(v@)
                                == ls
                        } else if ls.len() == 1 {
                            plan matches TjPlan::Slots(v) && v@.map_values(
                                |e: (usize, Vec<u8>)| (e.0 as int, e.1@),
                            ) == tj_slots(strings, t)
                        } else {
                            plan matches TjPlan::Lines(v) && byte_views(v@) == encoded_lines(
                                ls,
                                tj_hint(strings),
                            )
                        }
                    },
                }
            }
        }),
{
    let mut full: Vec<char> = Vec::new();
    let mut parts: Vec<String> = Vec::new();
    let mut indices: Vec<usize> = Vec::new();
    let mut hint = crate::formats::pdf::encoding::EncodingHint::SingleByte;
    let mut k: usize = 0;
    while k < items.len()
        invariant
            k <= items.len(),
            full@ == tj_text(items@, k as int),
            parts@.len() == indices@.len(),
            crate::translate::sentence::views(parts@) == tj_parts(tj_strings(items@, k as int)),
            indices@.map_values(|i: usize| i as int) == tj_strings(items@, k as int).map_values(
                |s: (int, Seq<u8>)| s.0,
            ),
            hint == tj_hint(tj_strings(items@, k as int)),
        decreases items.len() - k,
    {
        let ghost strings0 = tj_strings(items@, k as int);
        match &items[k] {
            TjItem::Text(b) => {
                let (text, h) = crate::formats::pdf::encoding::decode_pdf_string(b.as_slice());
                if parts.len() == 0 {
                    hint = h;
                }
                let tc = chars_of(text.as_str());
                let ghost f0 = full@;
                let mut j: usize = 0;
                while j < tc.len()
                    invariant
                        j <= tc.len(),
                        full@ == f0 + tc@.take(j as int),
                    decreases tc.len() - j,
                {
                    full.push(tc[j]);
                    j = j + 1;
                    assert(full@ =~= f0 + tc@.take(j as int));
                }
                assert(tc@.take(tc.len() as int) =~= tc@);
                let ghost p0 = parts@;
                let ghost i0 = indices@;
                parts.push(text);
                indices.push(k);
                assert(tj_strings(items@, k as int + 1) == strings0.push((k as int, b@)));
                assert(crate::translate::sentence::views(parts@) =~= crate::translate::sentence::views(
                    p0,
                ).push(text@));
                assert(tj_parts(strings0.push((k as int, b@))) =~= tj_parts(strings0).push(
                    text@,
                ));
                assert(indices@.map_values(|i: usize| i as int) =~= i0.map_values(
                    |i: usize| i as int,
                ).push(k as int));
                assert(strings0.push((k as int, b@)).map_values(|s: (int, Seq<u8>)| s.0)
                    =~= strings0.map_values(|s: (int, Seq<u8>)| s.0).push(k as int));
                assert(tj_strings(items@, k as int + 1)[0] == (if strings0.len() == 0 {
                    (k as int, b@)
                } else {
                    strings0[0]
                }));
            },
            TjItem::Kern { is_space } => {
                if *is_space && !(full.len() > 0 && full[full.len() - 1] == ' ') {
                    full.push(' ');
                }
            },
            TjItem::Other => {},
        }
        k = k + 1;
    }
    let ghost strings = tj_strings(items@, items@.len() as int);
    if parts.len() == 0 {
        return TjPlan::Keep;
    }
    let full_text = crate::text::string_from_chars(full.as_slice());
    if is_blank_str(full_text.as_str()) {
        return TjPlan::Keep;
    }
    let translated = match ctx.lookup(full_text.as_str()) {
        Some(t) => t,
        None => {
            return TjPlan::Keep;
        },
    };
    let lines = crate::layout::reflow_lines(full_text.as_str(), translated.as_str());
    if needs_fallback_font(translated.as_str()) {
        return TjPlan::Shaped(lines);
    }
    if lines.len() == 1 {
        let shares = redistribute_by_length(translated.as_str(), &parts);
        proof {
            crate::layout::lemma_proportional_split_len(translated@, tj_parts(strings));
        }
        let mut slots: Vec<(usize, Vec<u8>)> = Vec::new();
        let mut i: usize = 0;
        while i < indices.len()
            invariant
                i <= indices.len(),
                indices@.len() == parts@.len(),
                shares@.len() == parts@.len(),
                strings.len() == parts@.len(),
                crate::translate::sentence::views(shares@) == crate::layout::proportional_split(
                    translated@,
                    tj_parts(strings),
                ),
                indices@.map_values(|i: usize| i as int) == strings.map_values(
                    |s: (int, Seq<u8>)| s.0,
                ),
                hint == tj_hint(strings),
                slots@.map_values(|e: (usize, Vec<u8>)| (e.0 as int, e.1@)) == tj_slots(
                    strings,
                    translated@,
                ).take(i as int),
            decreases indices.len() - i,
        {
            let enc = crate::formats::pdf::encoding::encode_with_hint(shares[i].as_str(), hint);
            let ghost before = slots@;
            assert(indices@.map_values(|i: usize| i as int)[i as int] == strings[i as int].0);
            slots.push((indices[i], enc));
            assert(slots@.map_values(|e: (usize, Vec<u8>)| (e.0 as int, e.1@)) =~= before.map_values(
                |e: (usize, Vec<u8>)| (e.0 as int, e.1@),
            ).push(tj_slots(strings, translated@)[i as int]));
            i = i + 1;
            assert(slots@.map_values(|e: (usize, Vec<u8>)| (e.0 as int, e.1@)) =~= tj_slots(
                strings,
                translated@,
            ).take(i as int));
        }
        assert(tj_slots(strings, translated@).take(indices.len() as int) =~= tj_slots(
            strings,
            translated@,
        ));
        return TjPlan::Slots(slots);
    }
    TjPlan::Lines(encode_all(&lines, hint))
}

proof fn lemma_concat_all_has(ps: Seq<Seq<char>>, i: int, j: int)
    requires
        0 <= i < ps.len(),
        0 <= j < ps[i].len(),
    ensures
        crate::translate::sentence::concat_all(ps).contains(ps[i][j]),
    decreases ps.len(),
{
    let init = ps.drop_last();
    let whole = crate::translate::sentence::concat_all(ps);
    let front = crate::translate::sentence::concat_all(init);
    assert(whole == front + ps.last());
    if i < ps.len() - 1 {
        assert(init[i] == ps[i]);
        lemma_concat_all_has(init, i, j);
        let k = choose|k: int| 0 <= k < front.len() && front[k] == ps[i][j];
        assert(whole[k] == front[k]);
    } else {
        assert(whole[front.len() + j] == ps.last()[j]);
    }
}

/// A `TJ` array rewritten string by string reads back as the translation:
/// the new strings, decoded and put together in order, are the translated
/// text (when the original strings are not all empty and the translation
/// has no NUL character).
pub proof fn tj_slots_read_back(strings: Seq<(int, Seq<u8>)>, t: Seq<char>)
    requires
        strings.len() > 0,
        strings.len() == 1 || crate::layout::total_len(tj_parts(strings)) > 0,
        forall|i: int| 0 <= i < t.len() ==> #[trigger] t[i] != '\0',
    ensures
        crate::translate::sentence::concat_all(
            tj_slots(strings, t).map_values(
                |e: (int, Seq<u8>)| crate::formats::pdf::encoding::pdf_string_decoded(e.1).0,
            ),
        ) == t,
{
    let parts = tj_parts(strings);
    let shares = crate::layout::proportional_split(t, parts);
    crate::layout::proportional_split_concat(t, parts);
    let decoded = tj_slots(strings, t).map_values(
        |e: (int, Seq<u8>)| crate::formats::pdf::encoding::pdf_string_decoded(e.1).0,
    );
    assert forall|i: int| 0 <= i < decoded.len() implies #[trigger] decoded[i] == shares[i] by {
        assert forall|j: int| 0 <= j < shares[i].len() implies #[trigger] shares[i][j] != '\0' by {
            lemma_concat_all_has(shares, i, j);
            let k = choose|k: int| 0 <= k < t.len() && t[k] == shares[i][j];
            assert(t[k] != '\0');
        }
        crate::formats::pdf::encoding::encoded_text_reads_back(shares[i], tj_hint(strings));
    }
    assert(decoded =~= shares);
}

} // verus!
