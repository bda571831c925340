//! Choosing font files for a face.

use vstd::prelude::*;

use crate::formats::pdf::bundled_fonts::{bold_markers, face_key, face_key_of};
use crate::formats::pdf::types::FontVariants;
use crate::paths::{
    extension_of, file_stem_of, join_path, parent_of, path_extension, path_file_stem, path_join,
    path_parent,
};
use crate::text::{char_views, chars_of, contains_any, contains_any_chars, string_from_chars};

verus! {

/// Words that mark a bold-looking face when picking a variant (the bold
/// markers plus "medium").
pub open spec fn heavy_markers() -> Seq<Seq<char>> {
    bold_markers().push(seq!['m', 'e', 'd', 'i', 'u', 'm'])
}

/// Words that mark a slanted face.
pub open spec fn italic_markers() -> Seq<Seq<char>> {
    seq![
        seq!['i', 't', 'a', 'l', 'i', 'c'],
        seq!['o', 'b', 'l', 'i', 'q', 'u', 'e'],
        seq!['s', 'l', 'a', 'n', 't'],
    ]
}

/// The variant path picked for a font name.
pub open spec fn picked_variant(v: FontVariants, font_name: Option<Seq<char>>) -> Seq<char> {
    match font_name {
        None => v.regular@,
        Some(n) => {
            let bold = contains_any(face_key(n), heavy_markers());
            let italic = contains_any(face_key(n), italic_markers());
            if bold && italic {
                v.bold_italic@
            } else if bold {
                v.bold@
            } else if italic {
                v.italic@
            } else {
                v.regular@
            }
        },
    }
}

/// Picks the font file whose style matches a PDF font name.
pub fn pick_variant(variants: &FontVariants, font_name: Option<&str>) -> (p: String)
    ensures
        p@ == picked_variant(
            *variants,
            match font_name {
                None => None,
                Some(n) => Some(n@),
            },
        ),
{
    let name = match font_name {
        None => {
            return variants.regular.clone();
        },
        Some(n) => n,
    };
    let key = face_key_of(name);
    let heavy = vec![
        vec!['b', 'o', 'l', 'd'],
        vec!['h', 'e', 'a', 'v', 'y'],
        vec!['b', 'l', 'a', 'c', 'k'],
        vec!['d', 'e', 'm', 'i'],
        vec!['s', 'e', 'm', 'i', 'b', 'o', 'l', 'd'],
        vec!['m', 'e', 'd', 'i', 'u', 'm'],
    ];
    let slanted = vec![
        vec!['i', 't', 'a', 'l', 'i', 'c'],
        vec!['o', 'b', 'l', 'i', 'q', 'u', 'e'],
        vec!['s', 'l', 'a', 'n', 't'],
    ];
    assert(char_views(heavy@) =~= heavy_markers());
    assert(char_views(slanted@) =~= italic_markers());
    let is_bold = contains_any_chars(&key, &heavy);
    let is_italic = contains_any_chars(&key, &slanted);
    if is_bold && is_italic {
        variants.bold_italic.clone()
    } else if is_bold {
        variants.bold.clone()
    } else if is_italic {
        variants.italic.clone()
    } else {
        variants.regular.clone()
    }
}

/// What precedes the last `sep` in `s`, if `sep` occurs (`str::rsplit_once`).
pub open spec fn before_last(s: Seq<char>, sep: char) -> Option<Seq<char>>
    decreases s.len(),
{
    if s.len() == 0 {
        None
    } else if s.last() == sep {
        Some(s.drop_last())
    } else {
        before_last(s.drop_last(), sep)
    }
}

/// The file name of the bold sibling of a font file: the stem up to its last
/// `-`, then `-Bold`, then the original extension (if any).
pub open spec fn bold_file_name(base: Seq<char>) -> Seq<char> {
    let stem = match path_file_stem(base) {
        Some(s) => s,
        None => seq![],
    };
    let ext = match path_extension(base) {
        Some(e) => e,
        None => seq![],
    };
    let base_name = match before_last(stem, '-') {
        Some(b) => b,
        None => stem,
    };
    let named = base_name + seq!['-', 'B', 'o', 'l', 'd'];
    if ext.len() == 0 {
        named
    } else {
        named + seq!['.'] + ext
    }
}

/// The path where the bold sibling of a font file would be, next to it.
pub open spec fn bold_candidate(base: Seq<char>) -> Seq<char> {
    let parent = match path_parent(base) {
        Some(p) => p,
        None => seq![],
    };
    path_join(parent, bold_file_name(base))
}

fn chars_before_last(s: &Vec<char>, sep: char) -> (r: Option<Vec<char>>)
    ensures
        match r {
            Some(v) => before_last(s@, sep) == Some(v@),
            None => before_last(s@, sep) is None,
        },
{
    let mut i = s.len();
    assert(s@.take(i as int) =~= s@);
    while i > 0 && s[i - 1] != sep
        invariant
            i <= s.len(),
            before_last(s@, sep) == before_last(s@.take(i as int), sep),
        decreases i,
    {
        assert(s@.take(i as int).drop_last() =~= s@.take(i - 1));
        i = i - 1;
    }
    if i == 0 {
        return None;
    }
    assert(s@.take(i as int).drop_last() =~= s@.take(i - 1));
    let mut v: Vec<char> = Vec::new();
    let mut k: usize = 0;
    while k < i - 1
        invariant
            0 < i <= s.len(),
            k <= i - 1,
            v@ == s@.take(k as int),
        decreases i - 1 - k,
    {
        v.push(s[k]);
        k = k + 1;
        assert(v@ =~= s@.take(k as int));
    }
    Some(v)
}

fn append_chars(v: &mut Vec<char>, w: &Vec<char>)
    ensures
        final(v)@ == old(v)@ + w@,
{
    let mut k: usize = 0;
    let ghost v0 = v@;
    while k < w.len()
        invariant
            k <= w.len(),
            v@ == v0 + w@.take(k as int),
        decreases w.len() - k,
    {
        v.push(w[k]);
        k = k + 1;
        assert(v@ =~= v0 + w@.take(k as int));
    }
    assert(w@.take(w.len() as int) =~= w@);
}

/// The path where the bold sibling of the font file `base` would be.
pub fn bold_candidate_path(base: &str) -> (p: String)
    ensures
        p@ == bold_candidate(base@),
{
    let parent = match parent_of(base) {
        Some(p) => p,
        None => String::new(),
    };
    let stem = match file_stem_of(base) {
        Some(s) => chars_of(s.as_str()),
        None => Vec::new(),
    };
    let ext = match extension_of(base) {
        Some(e) => chars_of(e.as_str()),
        None => Vec::new(),
    };
    let mut name = match chars_before_last(&stem, '-') {
        Some(b) => b,
        None => stem,
    };
    let ghost base_name = name@;
    let bold_suffix = vec!['-', 'B', 'o', 'l', 'd'];
    assert(bold_suffix@ =~= seq!['-', 'B', 'o', 'l', 'd']);
    append_chars(&mut name, &bold_suffix);
    if ext.len() > 0 {
        name.push('.');
        append_chars(&mut name, &ext);
        assert(name@ =~= base_name + seq!['-', 'B', 'o', 'l', 'd'] + seq!['.'] + ext@);
    }
    assert(name@ == bold_file_name(base@));
    let file_name = string_from_chars(name.as_slice());
    join_path(parent.as_str(), file_name.as_str())
}

/// The font files to use for the font at `base`: every style uses `base`,
/// except the bold styles, which use the bold sibling when
/// `bold_sibling_exists` says that it exists on disk.
pub fn build_font_variants(base: &str, bold_sibling_exists: bool) -> (v: FontVariants)
    ensures
        v.regular@ == base@,
        v.italic@ == base@,
        v.bold@ == (if bold_sibling_exists {
            bold_candidate(base@)
        } else {
            base@
        }),
        v.bold_italic@ == v.bold@,
{
    let bold = if bold_sibling_exists {
        bold_candidate_path(base)
    } else {
        base.to_owned()
    };
    FontVariants {
        regular: base.to_owned(),
        bold: bold.clone(),
        italic: base.to_owned(),
        bold_italic: bold,
    }
}

} // verus!
