//! Character-level building blocks shared by the rest of the crate:
//! Unicode whitespace, trimming, whitespace splitting and joining.

use vstd::prelude::*;

verus! {

/// The Unicode `White_Space` property (what `char::is_whitespace` tests).
pub open spec fn is_ws(c: char) -> bool {
    ||| ('\u{0009}' <= c && c <= '\u{000D}')
    ||| c == ' '
    ||| c == '\u{0085}'
    ||| c == '\u{00A0}'
    ||| c == '\u{1680}'
    ||| ('\u{2000}' <= c && c <= '\u{200A}')
    ||| c == '\u{2028}'
    ||| c == '\u{2029}'
    ||| c == '\u{202F}'
    ||| c == '\u{205F}'
    ||| c == '\u{3000}'
}

/// Executable test for the Unicode `White_Space` property.
pub fn is_whitespace(c: char) -> (b: bool)
    ensures
        b == is_ws(c),
{
    ('\u{0009}' <= c && c <= '\u{000D}') || c == ' ' || c == '\u{0085}' || c == '\u{00A0}'
        || c == '\u{1680}' || ('\u{2000}' <= c && c <= '\u{200A}') || c == '\u{2028}'
        || c == '\u{2029}' || c == '\u{202F}' || c == '\u{205F}' || c == '\u{3000}'
}


/// Drops the leading run of whitespace.
pub open spec fn trim_start(s: Seq<char>) -> Seq<char>
    decreases s.len(),
{
    if s.len() > 0 && is_ws(s[0]) {
        trim_start(s.drop_first())
    } else {
        s
    }
}

/// Drops the trailing run of whitespace.
pub open spec fn trim_end(s: Seq<char>) -> Seq<char>
    decreases s.len(),
{
    if s.len() > 0 && is_ws(s.last()) {
        trim_end(s.drop_last())
    } else {
        s
    }
}

/// Drops leading and trailing whitespace (`str::trim`).
pub open spec fn trim(s: Seq<char>) -> Seq<char> {
    trim_end(trim_start(s))
}

/// Whether every character is whitespace (so that trimming leaves nothing).
pub open spec fn all_ws(s: Seq<char>) -> bool {
    forall|i: int| 0 <= i < s.len() ==> is_ws(#[trigger] s[i])
}

/// `trim_start` skips exactly the whitespace prefix of length `k`.
pub proof fn lemma_trim_start_skip(s: Seq<char>, k: int)
    requires
        0 <= k <= s.len(),
        forall|j: int| 0 <= j < k ==> is_ws(#[trigger] s[j]),
        k == s.len() || !is_ws(s[k]),
    ensures
        trim_start(s) == s.skip(k),
    decreases k,
{
    if k == 0 {
        assert(s.skip(0) =~= s);
    } else {
        let t = s.drop_first();
        assert forall|j: int| 0 <= j < k - 1 implies is_ws(#[trigger] t[j]) by {
            assert(t[j] == s[j + 1]);
        }
        lemma_trim_start_skip(t, k - 1);
        assert(t.skip(k - 1) =~= s.skip(k));
    }
}

/// `trim_end` keeps exactly the prefix of length `k` when the rest is whitespace.
pub proof fn lemma_trim_end_take(s: Seq<char>, k: int)
    requires
        0 <= k <= s.len(),
        forall|j: int| k <= j < s.len() ==> is_ws(#[trigger] s[j]),
        k == 0 || !is_ws(s[k - 1]),
    ensures
        trim_end(s) == s.take(k),
    decreases s.len() - k,
{
    if k == s.len() {
        assert(s.take(k) =~= s);
    } else {
        let t = s.drop_last();
        assert forall|j: int| k <= j < t.len() implies is_ws(#[trigger] t[j]) by {
            assert(t[j] == s[j]);
        }
        lemma_trim_end_take(t, k);
        assert(t.take(k) =~= s.take(k));
    }
}

/// The result of `trim_start` is a suffix of its input made of what follows
/// the leading whitespace.
pub proof fn lemma_trim_start_props(s: Seq<char>) -> (k: int)
    ensures
        0 <= k <= s.len(),
        trim_start(s) == s.skip(k),
        forall|j: int| 0 <= j < k ==> is_ws(#[trigger] s[j]),
        k == s.len() || !is_ws(s[k]),
    decreases s.len(),
{
    if s.len() > 0 && is_ws(s[0]) {
        let k1 = lemma_trim_start_props(s.drop_first());
        assert(s.drop_first().skip(k1) =~= s.skip(k1 + 1));
        assert forall|j: int| 0 <= j < k1 + 1 implies is_ws(#[trigger] s[j]) by {
            if j > 0 {
                assert(s[j] == s.drop_first()[j - 1]);
            }
        }
        k1 + 1
    } else {
        assert(s.skip(0) =~= s);
        0
    }
}

/// The result of `trim_end` is the prefix that ends at the last non-whitespace
/// character.
pub proof fn lemma_trim_end_props(s: Seq<char>) -> (k: int)
    ensures
        0 <= k <= s.len(),
        trim_end(s) == s.take(k),
        forall|j: int| k <= j < s.len() ==> is_ws(#[trigger] s[j]),
        k == 0 || !is_ws(s[k - 1]),
    decreases s.len(),
{
    if s.len() > 0 && is_ws(s.last()) {
        let k1 = lemma_trim_end_props(s.drop_last());
        assert(s.drop_last().take(k1) =~= s.take(k1));
        assert forall|j: int| k1 <= j < s.len() implies is_ws(#[trigger] s[j]) by {
            if j < s.len() - 1 {
                assert(s[j] == s.drop_last()[j]);
            }
        }
        k1
    } else {
        assert(s.take(s.len() as int) =~= s);
        s.len() as int
    }
}

/// A sequence trims to nothing exactly when it is all whitespace.
pub proof fn lemma_trim_empty_iff_all_ws(s: Seq<char>)
    ensures
        trim(s).len() == 0 <==> all_ws(s),
{
    let k = lemma_trim_start_props(s);
    let u = s.skip(k);
    let m = lemma_trim_end_props(u);
    if trim(s).len() == 0 {
        assert(m == 0);
        assert forall|i: int| 0 <= i < s.len() implies is_ws(#[trigger] s[i]) by {
            if i >= k {
                assert(s[i] == u[i - k]);
            }
        }
    }
    if all_ws(s) {
        if k < s.len() {
            assert(is_ws(s[k]));
        }
    }
}

/// The non-whitespace characters of `s`, in order.
pub open spec fn non_ws(s: Seq<char>) -> Seq<char>
    decreases s.len(),
{
    if s.len() == 0 {
        seq![]
    } else if is_ws(s.last()) {
        non_ws(s.drop_last())
    } else {
        non_ws(s.drop_last()).push(s.last())
    }
}

/// `non_ws` distributes over concatenation.
pub proof fn lemma_non_ws_add(a: Seq<char>, b: Seq<char>)
    ensures
        non_ws(a + b) == non_ws(a) + non_ws(b),
    decreases b.len(),
{
    if b.len() == 0 {
        assert(a + b =~= a);
        assert(non_ws(b) =~= seq![]);
        assert(non_ws(a) + non_ws(b) =~= non_ws(a));
    } else {
        lemma_non_ws_add(a, b.drop_last());
        assert((a + b).drop_last() =~= a + b.drop_last());
        assert((a + b).last() == b.last());
        if !is_ws(b.last()) {
            assert(non_ws(a) + non_ws(b.drop_last()).push(b.last()) =~= (non_ws(a) + non_ws(
                b.drop_last(),
            )).push(b.last()));
        }
    }
}

/// A whitespace-only sequence has no non-whitespace characters.
pub proof fn lemma_non_ws_all_ws(s: Seq<char>)
    requires
        all_ws(s),
    ensures
        non_ws(s) == Seq::<char>::empty(),
    decreases s.len(),
{
    if s.len() > 0 {
        assert(is_ws(s[s.len() - 1]));
        assert forall|i: int| 0 <= i < s.drop_last().len() implies is_ws(
            #[trigger] s.drop_last()[i],
        ) by {
            assert(s.drop_last()[i] == s[i]);
        }
        lemma_non_ws_all_ws(s.drop_last());
    }
}

/// Trimming removes whitespace only.
pub proof fn lemma_non_ws_trim(s: Seq<char>)
    ensures
        non_ws(trim_start(s)) == non_ws(s),
        non_ws(trim(s)) == non_ws(s),
{
    let k = lemma_trim_start_props(s);
    assert(s =~= s.take(k) + s.skip(k));
    lemma_non_ws_add(s.take(k), s.skip(k));
    assert forall|i: int| 0 <= i < s.take(k).len() implies is_ws(#[trigger] s.take(k)[i]) by {
        assert(s.take(k)[i] == s[i]);
    }
    lemma_non_ws_all_ws(s.take(k));
    assert(non_ws(s.take(k)) + non_ws(s.skip(k)) =~= non_ws(s.skip(k)));
    let u = s.skip(k);
    let m = lemma_trim_end_props(u);
    assert(u =~= u.take(m) + u.skip(m));
    lemma_non_ws_add(u.take(m), u.skip(m));
    assert forall|i: int| 0 <= i < u.skip(m).len() implies is_ws(#[trigger] u.skip(m)[i]) by {
        assert(u.skip(m)[i] == u[m + i]);
    }
    lemma_non_ws_all_ws(u.skip(m));
    assert(non_ws(u.take(m)) + non_ws(u.skip(m)) =~= non_ws(u.take(m)));
}

/// A non-empty trimmed sequence starts and ends with non-whitespace.
pub proof fn lemma_trim_ends(s: Seq<char>)
    ensures
        trim(s).len() > 0 ==> !is_ws(trim(s)[0]) && !is_ws(trim(s).last()),
{
    let k = lemma_trim_start_props(s);
    let u = s.skip(k);
    let m = lemma_trim_end_props(u);
    if trim(s).len() > 0 {
        assert(trim(s)[0] == s[k]);
        assert(trim(s).last() == u[m - 1]);
    }
}

/// The characters of a string slice, in order.
pub fn chars_of(s: &str) -> (v: Vec<char>)
    ensures
        v@ == s@,
{
    broadcast use vstd::string::axiom_spec_iter;

    let mut v: Vec<char> = Vec::new();
    assert(s@.take(s@.len() as int) =~= s@);
    for c in it: s.chars()
        invariant
            it.seq() == s@,
            v@ == s@.take(it.index()),
    {
        v.push(c);
        assert(v@ =~= s@.take(it.index() + 1));
    }
    v
}

/// A string holding the given characters.
#[verifier::external_body]
pub(crate) fn string_from_chars(v: &[char]) -> (s: String)
    ensures
        s@ == v@,
{
    v.iter().collect()
}

/// Index of the first non-whitespace character at or after `from`
/// (or the length when there is none).
pub fn skip_ws(t: &Vec<char>, from: usize) -> (k: usize)
    requires
        from <= t.len(),
    ensures
        from <= k <= t.len(),
        t@.skip(k as int) == trim_start(t@.skip(from as int)),
        forall|j: int| from <= j < k ==> is_ws(#[trigger] t@[j]),
        k == t.len() || !is_ws(t@[k as int]),
{
    let mut k = from;
    while k < t.len() && is_whitespace(t[k])
        invariant
            from <= k <= t.len(),
            forall|j: int| from <= j < k ==> is_ws(#[trigger] t@[j]),
        decreases t.len() - k,
    {
        k = k + 1;
    }
    proof {
        let u = t@.skip(from as int);
        assert forall|j: int| 0 <= j < k - from implies is_ws(#[trigger] u[j]) by {
            assert(u[j] == t@[from + j]);
        }
        if k < t.len() {
            assert(u[k - from] == t@[k as int]);
        }
        lemma_trim_start_skip(u, k - from);
        assert(u.skip(k - from) =~= t@.skip(k as int));
    }
    k
}

/// The characters `t[lo..hi]`.
pub fn copy_range(t: &Vec<char>, lo: usize, hi: usize) -> (r: Vec<char>)
    requires
        lo <= hi <= t.len(),
    ensures
        r@ == t@.subrange(lo as int, hi as int),
{
    let mut r: Vec<char> = Vec::new();
    let mut i = lo;
    while i < hi
        invariant
            lo <= i <= hi,
            hi <= t.len(),
            r@ == t@.subrange(lo as int, i as int),
        decreases hi - i,
    {
        r.push(t[i]);
        i = i + 1;
        assert(r@ =~= t@.subrange(lo as int, i as int));
    }
    r
}

/// The characters `t[lo..hi]` with surrounding whitespace removed.
pub fn trim_range(t: &Vec<char>, lo: usize, hi: usize) -> (r: Vec<char>)
    requires
        lo <= hi <= t.len(),
    ensures
        r@ == trim(t@.subrange(lo as int, hi as int)),
{
    let mut a = lo;
    while a < hi && is_whitespace(t[a])
        invariant
            lo <= a <= hi,
            hi <= t.len(),
            forall|j: int| lo <= j < a ==> is_ws(#[trigger] t@[j]),
        decreases hi - a,
    {
        a = a + 1;
    }
    let mut b = hi;
    while b > a && is_whitespace(t[b - 1])
        invariant
            a <= b <= hi,
            hi <= t.len(),
            forall|j: int| b <= j < hi ==> is_ws(#[trigger] t@[j]),
        decreases b - a,
    {
        b = b - 1;
    }
    proof {
        let s = t@.subrange(lo as int, hi as int);
        assert forall|j: int| 0 <= j < a - lo implies is_ws(#[trigger] s[j]) by {
            assert(s[j] == t@[lo + j]);
        }
        if a < hi {
            assert(s[a - lo] == t@[a as int]);
        }
        lemma_trim_start_skip(s, a - lo);
        let u = s.skip(a - lo);
        assert(u =~= t@.subrange(a as int, hi as int));
        assert forall|j: int| b - a <= j < u.len() implies is_ws(#[trigger] u[j]) by {
            assert(u[j] == t@[a + j]);
        }
        if b > a {
            assert(u[b - a - 1] == t@[b - 1]);
        }
        lemma_trim_end_take(u, b - a);
        assert(u.take(b - a) =~= t@.subrange(a as int, b as int));
    }
    copy_range(t, a, b)
}


/// `n` occurs in `h` starting at position `i`.
pub open spec fn occurs_at(h: Seq<char>, n: Seq<char>, i: int) -> bool {
    0 <= i && i + n.len() <= h.len() && h.subrange(i, i + n.len()) == n
}

/// `n` occurs somewhere in `h` (`str::contains`).
pub open spec fn contains_seq(h: Seq<char>, n: Seq<char>) -> bool {
    exists|i: int| occurs_at(h, n, i)
}

/// Whether `n` occurs in `h` as a contiguous run.
pub fn contains_chars(h: &Vec<char>, n: &Vec<char>) -> (b: bool)
    ensures
        b == contains_seq(h@, n@),
{
    if n.len() > h.len() {
        assert forall|i: int| !occurs_at(h@, n@, i) by {}
        return false;
    }
    let mut i: usize = 0;
    while i <= h.len() - n.len()
        invariant
            n.len() <= h.len(),
            forall|k: int| 0 <= k < i ==> !occurs_at(h@, n@, k),
        decreases h.len() - n.len() + 1 - i,
    {
        let mut j: usize = 0;
        let mut same = true;
        while j < n.len()
            invariant
                n.len() <= h.len(),
                i <= h.len() - n.len(),
                j <= n.len(),
                same == (forall|k: int| 0 <= k < j ==> h@[i + k] == n@[k]),
            decreases n.len() - j,
        {
            if h[i + j] != n[j] {
                same = false;
            }
            j = j + 1;
        }
        if same {
            assert(h@.subrange(i as int, i + n@.len()) =~= n@);
            assert(occurs_at(h@, n@, i as int));
            return true;
        }
        assert(!occurs_at(h@, n@, i as int)) by {
            if occurs_at(h@, n@, i as int) {
                let k = choose|k: int| 0 <= k < n.len() && h@[i + k] != n@[k];
                assert(h@.subrange(i as int, i + n@.len())[k] == h@[i + k]);
            }
        }
        i = i + 1;
    }
    assert forall|k: int| !occurs_at(h@, n@, k) by {
        if occurs_at(h@, n@, k) {
            assert(k < i);
        }
    }
    false
}

/// Whether any of `needles` occurs in `h`.
pub open spec fn contains_any(h: Seq<char>, needles: Seq<Seq<char>>) -> bool {
    exists|k: int| 0 <= k < needles.len() && contains_seq(h, #[trigger] needles[k])
}

/// The views of a list of character vectors.
pub open spec fn char_views(v: Seq<Vec<char>>) -> Seq<Seq<char>> {
    v.map_values(|p: Vec<char>| p@)
}

/// Whether any of `needles` occurs in `h`.
pub fn contains_any_chars(h: &Vec<char>, needles: &Vec<Vec<char>>) -> (b: bool)
    ensures
        b == contains_any(h@, char_views(needles@)),
{
    let mut k: usize = 0;
    while k < needles.len()
        invariant
            k <= needles.len(),
            forall|m: int| 0 <= m < k ==> !contains_seq(h@, #[trigger] char_views(needles@)[m]),
        decreases needles.len() - k,
    {
        if contains_chars(h, &needles[k]) {
            assert(contains_seq(h@, char_views(needles@)[k as int]));
            return true;
        }
        k = k + 1;
    }
    false
}

/// What follows the last occurrence of `sep` (the whole sequence when `sep`
/// does not occur): the last item of `str::split(sep)`.
pub open spec fn after_last(s: Seq<char>, sep: char) -> Seq<char>
    decreases s.len(),
{
    if s.len() == 0 {
        s
    } else if s.last() == sep {
        seq![]
    } else {
        after_last(s.drop_last(), sep).push(s.last())
    }
}

/// What follows the last `sep` in `s`.
pub fn chars_after_last(s: &Vec<char>, sep: char) -> (r: Vec<char>)
    ensures
        r@ == after_last(s@, sep),
{
    let mut i = s.len();
    assert(s@.take(i as int) =~= s@);
    assert(s@.skip(i as int) =~= Seq::<char>::empty());
    assert(after_last(s@, sep) + Seq::<char>::empty() =~= after_last(s@, sep));
    while i > 0 && s[i - 1] != sep
        invariant
            i <= s.len(),
            forall|k: int| i <= k < s.len() ==> s@[k] != sep,
            after_last(s@, sep) == after_last(s@.take(i as int), sep) + s@.skip(i as int),
        decreases i,
    {
        let ghost t = s@.take(i as int);
        assert(t.drop_last() =~= s@.take(i - 1));
        assert(s@.skip(i - 1) =~= seq![t.last()] + s@.skip(i as int));
        assert(after_last(t, sep) =~= after_last(t.drop_last(), sep) + seq![t.last()]);
        i = i - 1;
    }
    if i > 0 {
        let ghost t = s@.take(i as int);
        assert(after_last(t, sep) =~= seq![]);
    } else {
        assert(s@.take(0) =~= Seq::<char>::empty());
    }
    assert(after_last(s@, sep) =~= s@.skip(i as int));
    copy_range(s, i, s.len())
}

/// Full Unicode lower-casing of a string (`str::to_lowercase`).
pub uninterp spec fn unicode_lowercase(s: Seq<char>) -> Seq<char>;

/// Lower-cases a string with `str::to_lowercase`: the result is
/// `unicode_lowercase` of the input (the Unicode mapping itself is not stated
/// here).
#[verifier::external_body]
pub(crate) fn to_lowercase(s: &str) -> (r: String)
    ensures
        r@ == unicode_lowercase(s@),
{
    s.to_lowercase()
}

/// ASCII lower-casing of one character (`char::to_ascii_lowercase`).
pub open spec fn ascii_lower(c: char) -> char {
    if 'A' <= c && c <= 'Z' {
        ((c as u32) + 32) as char
    } else {
        c
    }
}

/// ASCII lower-casing of every character (`str::to_ascii_lowercase`).
pub open spec fn ascii_lowercase(s: Seq<char>) -> Seq<char> {
    s.map_values(|c: char| ascii_lower(c))
}

/// Lower-cases the ASCII letters of `s`.
pub fn to_ascii_lowercase(s: &Vec<char>) -> (r: Vec<char>)
    ensures
        r@ == ascii_lowercase(s@),
{
    let mut r: Vec<char> = Vec::new();
    let mut i: usize = 0;
    while i < s.len()
        invariant
            i <= s.len(),
            r@ == ascii_lowercase(s@.take(i as int)),
        decreases s.len() - i,
    {
        let c = s[i];
        let l = if 'A' <= c && c <= 'Z' {
            let u = (c as u32) + 32;
            char_from_scalar(u)
        } else {
            c
        };
        r.push(l);
        i = i + 1;
        assert(r@ =~= ascii_lowercase(s@.take(i as int)));
    }
    assert(s@.take(s.len() as int) =~= s@);
    r
}

/// The Unicode scalar value `u` as a `char` (`char::from_u32`).
#[verifier::external_body]
pub(crate) fn char_from_scalar(u: u32) -> (c: char)
    requires
        u <= 0xD7FF || (0xE000 <= u && u <= 0x10FFFF),
    ensures
        c as u32 == u,
{
    char::from_u32(u).unwrap()
}

/// Whether two character sequences are equal.
pub fn chars_equal(a: &Vec<char>, b: &Vec<char>) -> (r: bool)
    ensures
        r == (a@ == b@),
{
    if a.len() != b.len() {
        return false;
    }
    let mut i: usize = 0;
    while i < a.len()
        invariant
            a.len() == b.len(),
            i <= a.len(),
            forall|k: int| 0 <= k < i ==> a@[k] == b@[k],
        decreases a.len() - i,
    {
        if a[i] != b[i] {
            return false;
        }
        i = i + 1;
    }
    assert(a@ =~= b@);
    true
}


/// Index of the first whitespace character at or after `i` (or the length).
pub open spec fn ws_index_from(t: Seq<char>, i: int) -> int
    decreases t.len() - i,
{
    if i >= t.len() {
        t.len() as int
    } else if is_ws(t[i]) {
        i
    } else {
        ws_index_from(t, i + 1)
    }
}

pub proof fn lemma_ws_index_from(t: Seq<char>, i: int)
    requires
        0 <= i,
    ensures
        i <= t.len() ==> i <= ws_index_from(t, i) <= t.len(),
        ws_index_from(t, i) < t.len() ==> is_ws(t[ws_index_from(t, i)]),
        forall|j: int| i <= j < ws_index_from(t, i) ==> !is_ws(#[trigger] t[j]),
    decreases t.len() - i,
{
    if i < t.len() && !is_ws(t[i]) {
        lemma_ws_index_from(t, i + 1);
    }
}

/// The maximal runs of non-whitespace characters of `s`, in order
/// (`str::split_whitespace`).
pub open spec fn words(s: Seq<char>) -> Seq<Seq<char>>
    decreases s.len(),
{
    let t = trim_start(s);
    if t.len() == 0 {
        seq![]
    } else {
        let k = ws_index_from(t, 1);
        proof {
            lemma_trim_start_props(s);
            lemma_ws_index_from(t, 1);
        }
        seq![t.take(k)] + words(t.skip(k))
    }
}

/// The pieces of `ws` joined with `sep` between consecutive pieces
/// (`[T]::join`).
pub open spec fn join_with(ws: Seq<Seq<char>>, sep: Seq<char>) -> Seq<char>
    decreases ws.len(),
{
    if ws.len() == 0 {
        seq![]
    } else if ws.len() == 1 {
        ws[0]
    } else {
        ws[0] + sep + join_with(ws.drop_first(), sep)
    }
}

/// Whitespace collapsed: the words of `s` joined by single spaces.
pub open spec fn normalized(s: Seq<char>) -> Seq<char> {
    join_with(words(s), seq![' '])
}

pub proof fn lemma_join_push(ws: Seq<Seq<char>>, sep: Seq<char>, w: Seq<char>)
    requires
        ws.len() > 0,
    ensures
        join_with(ws.push(w), sep) == join_with(ws, sep) + sep + w,
    decreases ws.len(),
{
    assert(ws.push(w)[0] == ws[0]);
    if ws.len() == 1 {
        assert(ws.push(w).drop_first() =~= seq![w]);
        assert(join_with(seq![w], sep) == w);
    } else {
        lemma_join_push(ws.drop_first(), sep, w);
        assert(ws.push(w).drop_first() =~= ws.drop_first().push(w));
        assert(ws[0] + sep + (join_with(ws.drop_first(), sep) + sep + w) =~= (ws[0] + sep
            + join_with(ws.drop_first(), sep)) + sep + w);
    }
}

/// The maximal runs of non-whitespace characters of `t`.
pub fn split_whitespace(t: &Vec<char>) -> (ws: Vec<Vec<char>>)
    ensures
        char_views(ws@) == words(t@),
{
    let mut out: Vec<Vec<char>> = Vec::new();
    let mut pos: usize = 0;
    assert(t@.skip(0) =~= t@);
    loop
        invariant
            pos <= t.len(),
            char_views(out@) + words(t@.skip(pos as int)) == words(t@),
        decreases t.len() - pos,
    {
        let ghost u = t@.skip(pos as int);
        let start = skip_ws(t, pos);
        assert(t@.skip(start as int) =~= trim_start(u));
        if start == t.len() {
            assert(words(u) =~= Seq::<Seq<char>>::empty());
            assert(char_views(out@) + Seq::<Seq<char>>::empty() =~= char_views(out@));
            return out;
        }
        let ghost v = trim_start(u);
        let mut end = start + 1;
        proof {
            lemma_ws_index_from(v, 1);
        }
        while end < t.len() && !is_whitespace(t[end])
            invariant
                start < end <= t.len(),
                v == t@.skip(start as int),
                ws_index_from(v, 1) == ws_index_from(v, end - start),
            decreases t.len() - end,
        {
            assert(v[end - start] == t@[end as int]);
            end = end + 1;
        }
        if end < t.len() {
            assert(v[end - start] == t@[end as int]);
        }
        assert(ws_index_from(v, end - start) == end - start);
        let w = copy_range(t, start, end);
        assert(w@ =~= v.take(end - start));
        assert(t@.skip(end as int) =~= v.skip(end - start));
        let ghost before = out@;
        out.push(w);
        assert(char_views(out@) =~= char_views(before).push(w@));
        assert(words(u) == seq![w@] + words(t@.skip(end as int)));
        assert(char_views(out@) + words(t@.skip(end as int)) =~= char_views(before) + words(u));
        pos = end;
    }
}

/// The pieces of `ws` joined with `sep`.
pub fn join_chars(ws: &Vec<Vec<char>>, sep: &Vec<char>) -> (r: Vec<char>)
    ensures
        r@ == join_with(char_views(ws@), sep@),
{
    if ws.len() == 0 {
        return Vec::new();
    }
    let mut r = ws[0].clone();
    let mut i: usize = 1;
    assert(char_views(ws@).take(1) =~= seq![ws@[0]@]);
    while i < ws.len()
        invariant
            1 <= i <= ws.len(),
            r@ == join_with(char_views(ws@).take(i as int), sep@),
        decreases ws.len() - i,
    {
        let ghost before = r@;
        let mut k: usize = 0;
        while k < sep.len()
            invariant
                k <= sep.len(),
                r@ == before + sep@.take(k as int),
            decreases sep.len() - k,
        {
            r.push(sep[k]);
            k = k + 1;
            assert(r@ =~= before + sep@.take(k as int));
        }
        let mut k: usize = 0;
        while k < ws[i].len()
            invariant
                i < ws.len(),
                k <= ws[i as int].len(),
                r@ == before + sep@ + ws@[i as int]@.take(k as int),
            decreases ws[i as int].len() - k,
        {
            r.push(ws[i][k]);
            k = k + 1;
            assert(r@ =~= before + sep@ + ws@[i as int]@.take(k as int));
        }
        assert(sep@.take(sep.len() as int) =~= sep@);
        assert(ws@[i as int]@.take(ws[i as int].len() as int) =~= ws@[i as int]@);
        proof {
            lemma_join_push(char_views(ws@).take(i as int), sep@, ws@[i as int]@);
            assert(char_views(ws@).take(i as int).push(ws@[i as int]@) =~= char_views(ws@).take(
                i as int + 1,
            ));
        }
        i = i + 1;
    }
    assert(char_views(ws@).take(ws.len() as int) =~= char_views(ws@));
    r
}

/// Collapses whitespace: the words of `t` joined by single spaces.
pub fn normalize_chars(t: &Vec<char>) -> (r: Vec<char>)
    ensures
        r@ == normalized(t@),
{
    let ws = split_whitespace(t);
    let sep = vec![' '];
    assert(sep@ =~= seq![' ']);
    join_chars(&ws, &sep)
}


/// A word: non-empty, with no whitespace inside.
pub open spec fn is_word(w: Seq<char>) -> bool {
    w.len() > 0 && forall|i: int| 0 <= i < w.len() ==> !is_ws(#[trigger] w[i])
}

proof fn lemma_ws_index_exact(t: Seq<char>, i: int, j: int)
    requires
        0 <= i <= j <= t.len(),
        forall|k: int| i <= k < j ==> !is_ws(#[trigger] t[k]),
        j == t.len() || is_ws(t[j]),
    ensures
        ws_index_from(t, i) == j,
    decreases j - i,
{
    if i < j {
        lemma_ws_index_exact(t, i + 1, j);
    }
}

/// Every item of `words(s)` is a word.
pub proof fn lemma_words_are_words(s: Seq<char>)
    ensures
        forall|i: int| 0 <= i < words(s).len() ==> is_word(#[trigger] words(s)[i]),
    decreases s.len(),
{
    let t = trim_start(s);
    lemma_trim_start_props(s);
    if t.len() > 0 {
        let k = ws_index_from(t, 1);
        lemma_ws_index_from(t, 1);
        lemma_words_are_words(t.skip(k));
        assert(t[0] == s[s.len() - t.len()]);
        assert forall|i: int| 0 <= i < words(s).len() implies is_word(#[trigger] words(s)[i]) by {
            if i == 0 {
                assert(words(s)[0] == t.take(k));
                assert forall|j: int| 0 <= j < t.take(k).len() implies !is_ws(
                    #[trigger] t.take(k)[j],
                ) by {
                    assert(t.take(k)[j] == t[j]);
                }
            } else {
                assert(words(s)[i] == words(t.skip(k))[i - 1]);
            }
        }
    }
}

/// Splitting words joined by single spaces gives the words back.
pub proof fn lemma_words_of_join(ws: Seq<Seq<char>>)
    requires
        forall|i: int| 0 <= i < ws.len() ==> is_word(#[trigger] ws[i]),
    ensures
        words(join_with(ws, seq![' '])) == ws,
    decreases ws.len(),
{
    let sp = seq![' '];
    if ws.len() == 0 {
        assert(trim_start(Seq::<char>::empty()) =~= Seq::<char>::empty());
        assert(words(join_with(ws, sp)) =~= ws);
    } else {
        let w = ws[0];
        assert(is_word(ws[0]));
        let rest = ws.drop_first();
        assert forall|i: int| 0 <= i < rest.len() implies is_word(#[trigger] rest[i]) by {
            assert(rest[i] == ws[i + 1]);
        }
        lemma_words_of_join(rest);
        let j = join_with(rest, sp);
        let t = join_with(ws, sp);
        if ws.len() == 1 {
            assert(t == w);
        } else {
            assert(t == w + sp + j);
        }
        assert(t.len() >= w.len());
        assert forall|k: int| 0 <= k < w.len() implies t[k] == w[k] by {}
        lemma_trim_start_skip(t, 0);
        assert(t.skip(0) =~= t);
        assert(!is_ws(t[0]));
        assert(trim_start(t) == t);
        lemma_ws_index_exact(t, 1, w.len() as int);
        assert(t.take(w.len() as int) =~= w);
        let after = t.skip(w.len() as int);
        if ws.len() == 1 {
            assert(after =~= Seq::<char>::empty());
            assert(trim_start(after) =~= after);
            assert(words(after) =~= Seq::<Seq<char>>::empty());
            assert(words(t) =~= seq![w]);
            assert(ws =~= seq![w]);
        } else {
            assert(after =~= sp + j);
            lemma_words_are_words(j);
            // `j` starts with the first character of the next word
            assert(rest.len() >= 1);
            assert(is_word(rest[0]));
            if rest.len() == 1 {
                assert(j == rest[0]);
            } else {
                assert(j == rest[0] + sp + join_with(rest.drop_first(), sp));
            }
            assert(j[0] == rest[0][0]);
            assert forall|k: int| 0 <= k < 1 implies is_ws(#[trigger] after[k]) by {
                assert(after[0] == ' ');
            }
            assert(after[1] == j[0]);
            lemma_trim_start_skip(after, 1);
            assert(after.skip(1) =~= j);
            lemma_trim_start_skip(j, 0);
            assert(j.skip(0) =~= j);
            assert(words(after) == words(j));
            assert(words(t) =~= seq![w] + rest);
            assert(seq![w] + rest =~= ws);
        }
    }
}

/// Collapsing whitespace twice is the same as collapsing it once.
pub proof fn normalize_idempotent(s: Seq<char>)
    ensures
        normalized(normalized(s)) == normalized(s),
{
    lemma_words_are_words(s);
    lemma_words_of_join(words(s));
}

/// The Unicode `Alphabetic`-or-`Numeric` test of `char::is_alphanumeric`.
pub uninterp spec fn unicode_alphanumeric(c: char) -> bool;

/// Whether `c` is alphanumeric (`char::is_alphanumeric`); the result is
/// `unicode_alphanumeric(c)`, whose Unicode tables are not restated here.
#[verifier::external_body]
pub(crate) fn is_alphanumeric(c: char) -> (b: bool)
    ensures
        b == unicode_alphanumeric(c),
{
    c.is_alphanumeric()
}


/// A decimal digit.
pub open spec fn digit_char(d: int) -> char {
    ((d + 48) as u32) as char
}

/// Decimal digits of `n`.
pub open spec fn decimal(n: nat) -> Seq<char>
    decreases n,
{
    if n < 10 {
        seq![digit_char(n as int)]
    } else {
        decimal(n / 10).push(digit_char((n % 10) as int))
    }
}

/// Appends the decimal digits of `n`.
pub fn push_decimal(out: &mut Vec<char>, n: u128)
    ensures
        final(out)@ == old(out)@ + decimal(n as nat),
    decreases n,
{
    if n >= 10 {
        push_decimal(out, n / 10);
    }
    let d = (n % 10) as u32;
    out.push(char_from_scalar(d + 48));
    assert(final(out)@ =~= old(out)@ + decimal(n as nat));
}

/// Appends the characters of `s`.
pub fn push_str(out: &mut Vec<char>, s: &str)
    ensures
        final(out)@ == old(out)@ + s@,
{
    let c = chars_of(s);
    let mut i: usize = 0;
    let ghost start = out@;
    while i < c.len()
        invariant
            i <= c.len(),
            out@ == start + c@.take(i as int),
        decreases c.len() - i,
    {
        out.push(c[i]);
        i = i + 1;
        assert(out@ =~= start + c@.take(i as int));
    }
    assert(c@.take(c.len() as int) =~= c@);
}

} // verus!
