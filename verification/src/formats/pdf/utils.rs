//! Text clean-up for Devanagari output and escaping for PDF literal strings.

use vstd::prelude::*;

use crate::text::{chars_of, is_ws, string_from_chars, trim_start};

verus! {

/// The Devanagari virama (halant), U+094D.
pub open spec fn halant() -> char {
    '\u{094D}'
}

/// `s` with every whitespace run that directly follows a halant removed, so
/// that a conjunct split by a stray space is joined again.
pub open spec fn join_halant_clusters(s: Seq<char>) -> Seq<char>
    decreases s.len(),
{
    if s.len() == 0 {
        seq![]
    } else if s[0] == halant() {
        proof {
            crate::text::lemma_trim_start_props(s.drop_first());
        }
        seq![halant()] + join_halant_clusters(trim_start(s.drop_first()))
    } else {
        seq![s[0]] + join_halant_clusters(s.drop_first())
    }
}

/// Replaces every match of the regular expression `\u{094D}\s+` with
/// `\u{094D}` (`regex::Regex::replace_all`). The contract states what that
/// replacement does: leftmost matches, each a halant followed by the longest
/// run of Unicode whitespace, are rewritten to the halant alone.
#[verifier::external_body]
fn replace_halant_space(text: &str) -> (r: String)
    ensures
        r@ == join_halant_clusters(text@),
{
    let re = regex::Regex::new(r"\u{094D}\s+").unwrap();
    re.replace_all(text, "\u{094D}").into_owned()
}

/// Joins Devanagari conjuncts that a stray space after a halant split apart.
pub fn fix_devanagari_clusters(text: &str) -> (r: String)
    ensures
        r@ == join_halant_clusters(text@),
{
    replace_halant_space(text)
}

/// No halant is directly followed by whitespace.
pub open spec fn no_halant_space(r: Seq<char>) -> bool {
    forall|i: int| 0 <= i < r.len() - 1 && #[trigger] r[i] == halant() ==> !is_ws(r[i + 1])
}

proof fn lemma_join_first(s: Seq<char>)
    ensures
        join_halant_clusters(s).len() == 0 <==> s.len() == 0,
        s.len() > 0 ==> join_halant_clusters(s)[0] == s[0],
{
}

/// Fixing clusters only removes whitespace, and afterwards no halant is
/// followed by whitespace.
pub proof fn fix_devanagari_keeps_text(s: Seq<char>)
    ensures
        crate::text::non_ws(join_halant_clusters(s)) == crate::text::non_ws(s),
        no_halant_space(join_halant_clusters(s)),
    decreases s.len(),
{
    if s.len() > 0 {
        let rest = s.drop_first();
        let h = s[0];
        assert(s =~= seq![h] + rest);
        assert(!is_ws(halant()));
        let t = if h == halant() {
            crate::text::lemma_trim_start_props(rest);
            crate::text::lemma_non_ws_trim(rest);
            trim_start(rest)
        } else {
            rest
        };
        fix_devanagari_keeps_text(t);
        lemma_join_first(t);
        let r = join_halant_clusters(s);
        assert(r == seq![h] + join_halant_clusters(t));
        crate::text::lemma_non_ws_add(seq![h], join_halant_clusters(t));
        crate::text::lemma_non_ws_add(seq![h], rest);
        assert(crate::text::non_ws(t) == crate::text::non_ws(rest));
        assert forall|i: int| 0 <= i < r.len() - 1 && #[trigger] r[i] == halant() implies !is_ws(r[i + 1]) by {
            if i == 0 {
                assert(r[1] == join_halant_clusters(t)[0]);
                if h == halant() {
                    let k = crate::text::lemma_trim_start_props(rest);
                    assert(t[0] == rest[k]);
                }
            } else {
                assert(r[i] == join_halant_clusters(t)[i - 1]);
                assert(r[i + 1] == join_halant_clusters(t)[i]);
            }
        }
    }
}

/// Text in which no halant is followed by whitespace is left as it is.
pub proof fn joined_text_is_fixed(r: Seq<char>)
    requires
        no_halant_space(r),
    ensures
        join_halant_clusters(r) == r,
    decreases r.len(),
{
    if r.len() > 0 {
        let rest = r.drop_first();
        assert forall|i: int| 0 <= i < rest.len() - 1 && #[trigger] rest[i] == halant() implies !is_ws(
            rest[i + 1],
        ) by {
            assert(rest[i] == r[i + 1]);
            assert(rest[i + 1] == r[i + 2]);
        }
        if r[0] == halant() {
            if rest.len() > 0 {
                assert(rest[0] == r[1]);
            }
            crate::text::lemma_trim_start_skip(rest, 0);
            assert(rest.skip(0) =~= rest);
        }
        joined_text_is_fixed(rest);
        assert(r =~= seq![r[0]] + rest);
    }
}

/// Fixing clusters twice changes nothing more than fixing them once, and text
/// without a halant comes back unchanged.
pub proof fn fix_devanagari_idempotent(s: Seq<char>)
    ensures
        join_halant_clusters(join_halant_clusters(s)) == join_halant_clusters(s),
        (forall|i: int| 0 <= i < s.len() ==> s[i] != halant()) ==> join_halant_clusters(s) == s,
{
    fix_devanagari_keeps_text(s);
    joined_text_is_fixed(join_halant_clusters(s));
    if forall|i: int| 0 <= i < s.len() ==> s[i] != halant() {
        assert(no_halant_space(s));
        joined_text_is_fixed(s);
    }
}

/// The escape sequence written for one character inside a PDF literal string.
pub open spec fn escape_char(c: char) -> Seq<char> {
    if c == '\\' {
        seq!['\\', '\\']
    } else if c == '(' {
        seq!['\\', '(']
    } else if c == ')' {
        seq!['\\', ')']
    } else if c == '\n' {
        seq!['\\', 'n']
    } else if c == '\r' {
        seq!['\\', 'r']
    } else if c == '\t' {
        seq!['\\', 't']
    } else {
        seq![c]
    }
}

/// `s` with every character replaced by its escape sequence.
pub open spec fn escaped(s: Seq<char>) -> Seq<char>
    decreases s.len(),
{
    if s.len() == 0 {
        seq![]
    } else {
        escaped(s.drop_last()) + escape_char(s.last())
    }
}

/// Escapes backslashes, parentheses and line/tab controls for a PDF literal
/// string.
pub fn escape_pdf_string(text: &str) -> (r: String)
    ensures
        r@ == escaped(text@),
{
    let t = chars_of(text);
    let mut out: Vec<char> = Vec::new();
    let mut i: usize = 0;
    while i < t.len()
        invariant
            i <= t.len(),
            out@ == escaped(t@.take(i as int)),
        decreases t.len() - i,
    {
        let c = t[i];
        let ghost before = out@;
        if c == '\\' {
            out.push('\\');
            out.push('\\');
        } else if c == '(' {
            out.push('\\');
            out.push('(');
        } else if c == ')' {
            out.push('\\');
            out.push(')');
        } else if c == '\n' {
            out.push('\\');
            out.push('n');
        } else if c == '\r' {
            out.push('\\');
            out.push('r');
        } else if c == '\t' {
            out.push('\\');
            out.push('t');
        } else {
            out.push(c);
        }
        assert(out@ =~= before + escape_char(c));
        assert(t@.take(i as int + 1).drop_last() =~= t@.take(i as int));
        i = i + 1;
    }
    assert(t@.take(t.len() as int) =~= t@);
    string_from_chars(out.as_slice())
}

} // verus!
