//! Metrics of the embedded fallback font: its glyph widths, as the `DW` and
//! `W` entries of a CID font (advances from the font's `hmtx` table scaled to
//! 1000 units per em, grouped in runs of consecutive glyph ids), and the name
//! it is embedded under.

use vstd::prelude::*;

use crate::formats::pdf::font_usage::{increasing, FontUsage};
use crate::formats::pdf::reconstructor::opt_view;

verus! {

/// What `ttf_parser` reports as the units per em of the font in `font`
/// (face 0), or nothing when the data does not parse as a font.
pub uninterp spec fn ttf_units_per_em(font: Seq<u8>) -> Option<u16>;

/// The glyph `ttf_parser` maps a character to in the font in `font`, or
/// nothing when the data does not parse or the font has no glyph for it.
pub uninterp spec fn ttf_glyph_index(font: Seq<u8>, c: char) -> Option<u16>;

/// The horizontal advance `ttf_parser` reports for a glyph of the font in
/// `font`, or nothing when the data does not parse or has no such advance.
pub uninterp spec fn ttf_glyph_advance(font: Seq<u8>, gid: u16) -> Option<u16>;

/// `ttf_parser::Face::units_per_em` of face 0 of `font`.
#[verifier::external_body]
fn units_per_em(font: &[u8]) -> (r: Option<u16>)
    ensures
        r == ttf_units_per_em(font@),
{
    Some(ttf_parser::Face::parse(font, 0).ok()?.units_per_em())
}

/// `ttf_parser::Face::glyph_index` of face 0 of `font`.
#[verifier::external_body]
fn glyph_index(font: &[u8], c: char) -> (r: Option<u16>)
    ensures
        r == ttf_glyph_index(font@, c),
{
    Some(ttf_parser::Face::parse(font, 0).ok()?.glyph_index(c)?.0)
}

/// `ttf_parser::Face::glyph_hor_advance` of face 0 of `font`.
#[verifier::external_body]
fn glyph_advance(font: &[u8], gid: u16) -> (r: Option<u16>)
    ensures
        r == ttf_glyph_advance(font@, gid),
{
    ttf_parser::Face::parse(font, 0).ok()?.glyph_hor_advance(ttf_parser::GlyphId(gid))
}

/// The font's units per em, at least 1 (see `scale_units`); nothing when the
/// data does not parse as a font.
pub fn em_units(font: &[u8]) -> (r: Option<u16>)
    ensures
        match ttf_units_per_em(font@) {
            Some(_) => r matches Some(u) && u as int == scale_units(font@),
            None => r is None,
        },
{
    match units_per_em(font) {
        Some(u) => if u == 0 {
            Some(1)
        } else {
            Some(u)
        },
        None => None,
    }
}

/// The units per em used for scaling: the font's, but at least 1.
pub open spec fn scale_units(font: Seq<u8>) -> int {
    match ttf_units_per_em(font) {
        Some(u) => if u == 0 {
            1
        } else {
            u as int
        },
        None => 1,
    }
}

/// An advance in font units scaled to 1000 units per em, rounded to the
/// nearest integer (halves up).
pub open spec fn scaled_width(adv: int, upem: int) -> int {
    (2000 * adv + upem) / (2 * upem)
}

/// The default width (`DW`): the scaled advance of the space glyph, or 1000
/// when the font has none.
pub open spec fn default_glyph_width(font: Seq<u8>) -> int {
    match ttf_glyph_index(font, ' ') {
        Some(g) => match ttf_glyph_advance(font, g) {
            Some(a) => scaled_width(a as int, scale_units(font)),
            None => 1000,
        },
        None => 1000,
    }
}

/// The width of one glyph: its scaled advance, or the default width.
pub open spec fn glyph_width(font: Seq<u8>, dw: int, gid: u16) -> int {
    match ttf_glyph_advance(font, gid) {
        Some(a) => scaled_width(a as int, scale_units(font)),
        None => dw,
    }
}

/// The last index of the run of consecutive ids that contains index `i`
/// and starts no later than `i`.
pub open spec fn run_end(ids: Seq<u16>, i: int) -> int
    decreases ids.len() - i,
{
    if 0 <= i && i + 1 < ids.len() && ids[i + 1] == ids[i] + 1 {
        run_end(ids, i + 1)
    } else {
        i
    }
}

/// The widths of the glyphs `s..=e`.
pub open spec fn run_widths(font: Seq<u8>, dw: int, s: u16, e: u16) -> Seq<i64> {
    Seq::new((e - s + 1) as nat, |k: int| glyph_width(font, dw, (s + k) as u16) as i64)
}

/// Where the run starting at `i` ends: within the ids, consecutive up to its
/// end, and not continued past it.
pub proof fn lemma_run_end_range(ids: Seq<u16>, i: int)
    requires
        0 <= i < ids.len(),
    ensures
        i <= run_end(ids, i) < ids.len(),
        forall|k: int| i <= k < run_end(ids, i) ==> ids[k + 1] == #[trigger] ids[k] + 1,
        run_end(ids, i) + 1 < ids.len() ==> ids[run_end(ids, i) + 1] != ids[run_end(ids, i)] + 1,
    decreases ids.len() - i,
{
    if i + 1 < ids.len() && ids[i + 1] == ids[i] + 1 {
        lemma_run_end_range(ids, i + 1);
    }
}

/// The `W` array: for each maximal run of consecutive glyph ids, its first
/// id and the widths of its glyphs.
pub open spec fn width_runs(font: Seq<u8>, dw: int, ids: Seq<u16>) -> Seq<(u16, Seq<i64>)>
    decreases ids.len(),
{
    if ids.len() == 0 {
        seq![]
    } else {
        proof {
            lemma_run_end_range(ids, 0);
        }
        let e = run_end(ids, 0);
        seq![(ids[0], run_widths(font, dw, ids[0], ids[e]))] + width_runs(font, dw, ids.skip(e + 1))
    }
}

fn width_of(adv: u16, upem: u16) -> (w: i64)
    requires
        upem >= 1,
    ensures
        w == scaled_width(adv as int, upem as int),
{
    let num: u64 = 2000 * (adv as u64) + upem as u64;
    let den: u64 = 2 * upem as u64;
    assert(num / den <= num) by (nonlinear_arith)
        requires
            den >= 2,
    ;
    (num / den) as i64
}

proof fn lemma_run_end_shift(ids: Seq<u16>, i: int, j: int)
    requires
        0 <= i <= j < ids.len(),
        forall|k: int| i <= k < j ==> ids[k + 1] == #[trigger] ids[k] + 1,
    ensures
        run_end(ids, i) == run_end(ids, j),
    decreases j - i,
{
    if i < j {
        lemma_run_end_shift(ids, i + 1, j);
    }
}

proof fn lemma_run_end_skip(ids: Seq<u16>, i: int, j: int)
    requires
        0 <= i <= j < ids.len(),
    ensures
        run_end(ids.skip(i), j - i) == run_end(ids, j) - i,
    decreases ids.len() - j,
{
    if j + 1 < ids.len() && ids[j + 1] == ids[j] + 1 {
        lemma_run_end_skip(ids, i, j + 1);
    }
}

fn scan_run(ids: &Vec<u16>, i: usize) -> (j: usize)
    requires
        i < ids@.len(),
        increasing(ids@),
    ensures
        j == run_end(ids@, i as int),
        i <= j < ids@.len(),
        ids@[j as int] - ids@[i as int] == j - i,
{
    let ghost s = ids@;
    let n = ids.len();
    let mut j = i;
    while j + 1 < n && ids[j + 1] == ids[j] + 1
        invariant
            i <= j < n,
            n == s.len(),
            s == ids@,
            increasing(s),
            forall|k: int| i <= k < j ==> s[k + 1] == #[trigger] s[k] + 1,
        decreases n - j,
    {
        j = j + 1;
    }
    proof {
        lemma_run_end_shift(s, i as int, j as int);
        lemma_steps(s, i as int, j - i);
    }
    j
}

fn run_width_list(font: &[u8], upem: u16, dw: i64, start: u16, end: u16) -> (widths: Vec<i64>)
    requires
        start <= end,
        upem as int == scale_units(font@),
    ensures
        widths@ == run_widths(font@, dw as int, start, end),
{
    let mut widths: Vec<i64> = Vec::new();
    let mut c: u32 = start as u32;
    while c <= end as u32
        invariant
            start <= end,
            start as int <= c <= end as int + 1,
            upem as int == scale_units(font@),
            upem >= 1,
            widths@ == run_widths(font@, dw as int, start, end).take(c - start),
        decreases end as u32 + 1 - c,
    {
        let w = match glyph_advance(font, c as u16) {
            Some(a) => width_of(a, upem),
            None => dw,
        };
        widths.push(w);
        assert(widths@ =~= run_widths(font@, dw as int, start, end).take(c + 1 - start));
        c = c + 1;
    }
    assert(widths@ =~= run_widths(font@, dw as int, start, end));
    widths
}

/// Default width and `W` array of the glyphs used (see `width_runs`).
pub fn build_widths_from_glyphs(font: &[u8], usage: &FontUsage) -> (r: (i64, Vec<(u16, Vec<i64>)>))
    requires
        usage.wf(),
    ensures
        r.0 == default_glyph_width(font@),
        r.1@.map_values(|e: (u16, Vec<i64>)| (e.0, e.1@)) == width_runs(font@, r.0 as int, usage.glyph_ids()),
{
    let upem: u16 = match units_per_em(font) {
        Some(u) => if u == 0 {
            1
        } else {
            u
        },
        None => 1,
    };
    let dw: i64 = match glyph_index(font, ' ') {
        Some(g) => match glyph_advance(font, g) {
            Some(a) => width_of(a, upem),
            None => 1000,
        },
        None => 1000,
    };
    let id_list = usage.glyph_list();
    let ids = &id_list;
    let ghost s = ids@;
    let n = ids.len();
    let mut out: Vec<(u16, Vec<i64>)> = Vec::new();
    let mut i: usize = 0;
    assert(s.skip(0) =~= s);
    while i < n
        invariant
            i <= n,
            n == s.len(),
            s == ids@,
            increasing(s),
            upem as int == scale_units(font@),
            out@.map_values(|e: (u16, Vec<i64>)| (e.0, e.1@)) + width_runs(font@, dw as int, s.skip(i as int))
                == width_runs(font@, dw as int, s),
        decreases n - i,
    {
        let j = scan_run(ids, i);
        let start = ids[i];
        let end = ids[j];
        let widths = run_width_list(font, upem, dw, start, end);
        proof {
            lemma_run_end_skip(s, i as int, i as int);
            let rest = s.skip(i as int);
            assert(rest[0] == s[i as int]);
            assert(run_end(rest, 0) == j - i);
            assert(rest[j - i] == s[j as int]);
            assert(rest.skip(j - i + 1) =~= s.skip(j + 1));
        }
        let ghost before = out@;
        out.push((start, widths));
        assert(out@.map_values(|e: (u16, Vec<i64>)| (e.0, e.1@)) =~= before.map_values(
            |e: (u16, Vec<i64>)| (e.0, e.1@),
        ).push((start, run_widths(font@, dw as int, start, end))));
        i = j + 1;
    }
    assert(s.skip(n as int) =~= Seq::<u16>::empty());
    (dw, out)
}

proof fn lemma_steps(s: Seq<u16>, i: int, d: int)
    requires
        0 <= d,
        0 <= i,
        i + d < s.len(),
        forall|k: int| i <= k < i + d ==> s[k + 1] == #[trigger] s[k] + 1,
    ensures
        s[i + d] == s[i] + d,
    decreases d,
{
    if d > 0 {
        lemma_steps(s, i, d - 1);
    }
}

/// The entries of the `name` table of face 0 of `font`, in table order, as
/// `(name id, text)` with the text `ttf_parser` decodes (Unicode entries
/// only); nothing when the data does not parse as a font.
pub uninterp spec fn ttf_names(font: Seq<u8>) -> Option<Seq<(u16, Option<Seq<char>>)>>;

/// The plain view of name entries.
pub open spec fn name_views(v: Seq<(u16, Option<String>)>) -> Seq<(u16, Option<Seq<char>>)> {
    v.map_values(|e: (u16, Option<String>)| (e.0, opt_view(e.1)))
}

/// The `name` entries of face 0 of `font` (`ttf_parser::Face::names`, each
/// with `Name::to_string`); the result is `ttf_names` of the font.
#[verifier::external_body]
fn font_names(font: &[u8]) -> (r: Option<Vec<(u16, Option<String>)>>)
    ensures
        match r {
            Some(v) => ttf_names(font@) == Some(name_views(v@)),
            None => ttf_names(font@) is None,
        },
{
    let face = ttf_parser::Face::parse(font, 0).ok()?;
    Some(face.names().into_iter().map(|n| (n.name_id, n.to_string())).collect())
}

/// The text of the first entry with name id `id` that has one.
pub open spec fn first_named(names: Seq<(u16, Option<Seq<char>>)>, id: u16) -> Option<Seq<char>>
    decreases names.len(),
{
    if names.len() == 0 {
        None
    } else if names[0].0 == id && names[0].1 is Some {
        names[0].1
    } else {
        first_named(names.drop_first(), id)
    }
}

/// The name a font goes by: its PostScript name (id 6), else its full name
/// (id 4), else its family name (id 1).
pub open spec fn best_name(names: Seq<(u16, Option<Seq<char>>)>) -> Option<Seq<char>> {
    match first_named(names, 6) {
        Some(n) => Some(n),
        None => match first_named(names, 4) {
            Some(n) => Some(n),
            None => first_named(names, 1),
        },
    }
}

fn first_with_id(names: &Vec<(u16, Option<String>)>, id: u16) -> (r: Option<String>)
    ensures
        opt_view(r) == first_named(name_views(names@), id),
{
    let ghost all = name_views(names@);
    let mut i: usize = 0;
    assert(all.skip(0) =~= all);
    while i < names.len()
        invariant
            i <= names@.len(),
            all == name_views(names@),
            first_named(all, id) == first_named(all.skip(i as int), id),
        decreases names.len() - i,
    {
        assert(all.skip(i as int).drop_first() =~= all.skip(i + 1));
        assert(all.skip(i as int)[0] == all[i as int]);
        if names[i].0 == id {
            if let Some(t) = &names[i].1 {
                return Some(t.clone());
            }
        }
        i = i + 1;
    }
    assert(all.skip(i as int).len() == 0);
    None
}

/// The name a font goes by among its name entries (see `best_name`).
pub fn pick_font_name(names: &Vec<(u16, Option<String>)>) -> (r: Option<String>)
    ensures
        opt_view(r) == best_name(name_views(names@)),
{
    match first_with_id(names, 6) {
        Some(n) => Some(n),
        None => match first_with_id(names, 4) {
            Some(n) => Some(n),
            None => first_with_id(names, 1),
        },
    }
}

/// The name the font in `font` goes by (see `best_name`); nothing when the
/// data does not parse as a font or it has none of these names.
pub fn face_best_name(font: &[u8]) -> (r: Option<String>)
    ensures
        match ttf_names(font@) {
            Some(ns) => opt_view(r) == best_name(ns),
            None => r is None,
        },
{
    match font_names(font) {
        Some(names) => pick_font_name(&names),
        None => None,
    }
}

} // verus!
