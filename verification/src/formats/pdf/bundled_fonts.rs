//! Font-name heuristics.

use vstd::prelude::*;

use crate::text::{
    after_last, char_views, chars_after_last, chars_of, contains_any, contains_any_chars,
    string_from_chars, to_lowercase, unicode_lowercase,
};

verus! {

/// Words that mark a bold face in a font name.
pub open spec fn bold_markers() -> Seq<Seq<char>> {
    seq![
        seq!['b', 'o', 'l', 'd'],
        seq!['h', 'e', 'a', 'v', 'y'],
        seq!['b', 'l', 'a', 'c', 'k'],
        seq!['d', 'e', 'm', 'i'],
        seq!['s', 'e', 'm', 'i', 'b', 'o', 'l', 'd'],
    ]
}

/// The part of a PDF font name that names the face: what follows the subset
/// tag (the last `+`), lower-cased.
pub open spec fn face_key(name: Seq<char>) -> Seq<char> {
    unicode_lowercase(after_last(name, '+'))
}

/// The lower-cased face part of `name` (see `face_key`).
pub fn face_key_of(name: &str) -> (k: Vec<char>)
    ensures
        k@ == face_key(name@),
{
    let chars = chars_of(name);
    let tail = chars_after_last(&chars, '+');
    let t = string_from_chars(tail.as_slice());
    let l = to_lowercase(t.as_str());
    chars_of(l.as_str())
}

/// Whether a PDF font name such as `"BAAAAA+Arial-BoldMT"` names a bold face.
pub fn is_bold_font_name(font_name: Option<&str>) -> (b: bool)
    ensures
        b == match font_name {
            None => false,
            Some(n) => contains_any(face_key(n@), bold_markers()),
        },
{
    match font_name {
        None => false,
        Some(name) => {
            let key = face_key_of(name);
            let markers = vec![
                vec!['b', 'o', 'l', 'd'],
                vec!['h', 'e', 'a', 'v', 'y'],
                vec!['b', 'l', 'a', 'c', 'k'],
                vec!['d', 'e', 'm', 'i'],
                vec!['s', 'e', 'm', 'i', 'b', 'o', 'l', 'd'],
            ];
            assert(char_views(markers@) =~= bold_markers());
            contains_any_chars(&key, &markers)
        },
    }
}

} // verus!
