//! What a shaped run of text records in the fallback font's usage: every
//! glyph drawn, and for each glyph the text of its cluster (the bytes from
//! its cluster start to the next glyph's) the first time that text exists.

use vstd::prelude::*;
use vstd::string::StringSliceAdditionalSpecFns;
use vstd::utf8::{decode_utf8, encode_utf8, is_char_boundary, valid_utf8};

use crate::formats::pdf::font_usage::{mapped_text, FontUsage};

verus! {

/// `str::get(start..end)` on a text: the characters of the UTF-8 bytes
/// `start..end` when both ends lie on character boundaries in order, else
/// nothing.
pub open spec fn str_slice(text: Seq<char>, start: int, end: int) -> Option<Seq<char>> {
    let b = encode_utf8(text);
    if 0 <= start <= end <= b.len() && is_char_boundary(b, start) && is_char_boundary(b, end) {
        Some(decode_utf8(b.subrange(start, end)))
    } else {
        None
    }
}

/// The byte range of glyph `i`'s cluster: from its cluster start to the next
/// glyph's, the last one to the end of the text.
pub open spec fn cluster_text(text: Seq<char>, clusters: Seq<u32>, i: int) -> Option<Seq<char>> {
    let end = if i + 1 < clusters.len() {
        clusters[i + 1] as int
    } else {
        encode_utf8(text).len() as int
    };
    str_slice(text, clusters[i] as int, end)
}

/// The text recorded for glyph `g` by the first `k` glyphs: that of the
/// first of them drawing `g` whose cluster text exists.
pub open spec fn first_cluster_text(
    text: Seq<char>,
    gids: Seq<u16>,
    clusters: Seq<u32>,
    g: u16,
    k: int,
) -> Option<Seq<char>>
    decreases k,
{
    if k <= 0 {
        None
    } else {
        match first_cluster_text(text, gids, clusters, g, k - 1) {
            Some(t) => Some(t),
            None => if gids[k - 1] == g {
                cluster_text(text, clusters, k - 1)
            } else {
                None
            },
        }
    }
}

proof fn lemma_boundary_in_tail(bytes: Seq<u8>, start: int, end: int)
    requires
        valid_utf8(bytes),
        0 <= start <= end <= bytes.len(),
        is_char_boundary(bytes, start),
        is_char_boundary(bytes, end),
    ensures
        valid_utf8(bytes.subrange(start, bytes.len() as int)),
        is_char_boundary(bytes.subrange(start, bytes.len() as int), end - start),
{
    let tail = bytes.subrange(start, bytes.len() as int);
    vstd::utf8::valid_utf8_split(bytes, start);
    vstd::utf8::is_char_boundary_start_end_of_seq(tail);
    if 0 < end - start < tail.len() {
        vstd::utf8::is_char_boundary_iff_not_is_continuation_byte(tail, end - start);
        vstd::utf8::is_char_boundary_iff_not_is_continuation_byte(bytes, end);
        assert(tail[end - start] == bytes[end]);
    }
}

/// `text.get(start..end)`, owned (see `str_slice`).
pub fn slice_text(text: &str, start: usize, end: usize) -> (r: Option<String>)
    ensures
        crate::formats::pdf::reconstructor::opt_view(r) == str_slice(text@, start as int, end as int),
{
    let len = text.as_bytes().len();
    if start <= end && end <= len && text.is_char_boundary(start) && text.is_char_boundary(end) {
        let ghost b = encode_utf8(text@);
        proof {
            vstd::utf8::encode_utf8_valid_utf8(text@);
            lemma_boundary_in_tail(b, start as int, end as int);
        }
        let (_, tail) = text.split_at(start);
        assert(tail.spec_bytes() =~= b.subrange(start as int, b.len() as int));
        let (piece, _) = tail.split_at(end - start);
        assert(piece.spec_bytes() =~= b.subrange(start as int, end as int));
        proof {
            vstd::utf8::encode_utf8_decode_utf8(piece@);
        }
        Some(piece.to_owned())
    } else {
        None
    }
}

/// Records the glyphs of a shaped run (`gids[i]` drawn for the cluster
/// starting at byte `clusters[i]` of `text`): every glyph is marked used, and
/// a glyph without text yet gets the text of its first cluster that has one.
pub fn record_shaped_glyphs(usage: &mut FontUsage, text: &str, gids: &Vec<u16>, clusters: &Vec<u32>)
    requires
        old(usage).wf(),
        gids@.len() == clusters@.len(),
    ensures
        final(usage).wf(),
        forall|g: u16|
            #[trigger] final(usage).glyph_ids().contains(g) <==> (old(usage).glyph_ids().contains(g)
                || gids@.contains(g)),
        forall|g: u16|
            #[trigger] mapped_text(final(usage).mapping(), g) == match mapped_text(old(usage).mapping(), g) {
                Some(t) => Some(t),
                None => first_cluster_text(text@, gids@, clusters@, g, gids@.len() as int),
            },
{
    let ghost u0 = *usage;
    let n = gids.len();
    let mut i: usize = 0;
    while i < n
        invariant
            i <= n,
            n == gids@.len(),
            n == clusters@.len(),
            usage.wf(),
            forall|g: u16|
                #[trigger] usage.glyph_ids().contains(g) <==> (u0.glyph_ids().contains(g)
                    || gids@.take(i as int).contains(g)),
            forall|g: u16|
                #[trigger] mapped_text(usage.mapping(), g) == match mapped_text(u0.mapping(), g) {
                    Some(t) => Some(t),
                    None => first_cluster_text(text@, gids@, clusters@, g, i as int),
                },
        decreases n - i,
    {
        let gid = gids[i];
        let ghost pre = *usage;
        usage.insert_glyph(gid);
        let ghost inserted = *usage;
        let end: usize = if i + 1 < n {
            clusters[i + 1] as usize
        } else {
            text.as_bytes().len()
        };
        let piece = slice_text(text, clusters[i] as usize, end);
        let ghost before = *usage;
        match piece {
            Some(t) => {
                usage.map_glyph(gid, t);
            },
            None => {},
        }
        proof {
            assert(gids@.take(i + 1) =~= gids@.take(i as int).push(gid));
            assert forall|g: u16| #[trigger] usage.glyph_ids().contains(g) <==> (u0.glyph_ids().contains(g)
                || gids@.take(i + 1).contains(g)) by {
                if gids@.take(i + 1).contains(g) && !gids@.take(i as int).contains(g) {
                    assert(g == gid);
                }
                assert(usage.glyph_ids() == inserted.glyph_ids());
                if g == gid {
                    assert(gids@.take(i + 1)[i as int] == g);
                }
                if gids@.take(i as int).contains(g) {
                    let k = choose|k: int| 0 <= k < i && gids@.take(i as int)[k] == g;
                    assert(gids@.take(i + 1)[k] == g);
                }
            }
            assert forall|g: u16| #[trigger] mapped_text(usage.mapping(), g) == match mapped_text(u0.mapping(), g) {
                Some(t) => Some(t),
                None => first_cluster_text(text@, gids@, clusters@, g, i + 1),
            } by {
                assert(mapped_text(before.mapping(), g) == match mapped_text(u0.mapping(), g) {
                    Some(t) => Some(t),
                    None => first_cluster_text(text@, gids@, clusters@, g, i as int),
                });
            }
        }
        i = i + 1;
    }
    assert(gids@.take(n as int) =~= gids@);
}

/// A glyph as the two-byte big-endian CID of a string operand (CIDs equal
/// glyph ids in an Identity-H font).
pub fn cid_string(gid: u16) -> (b: Vec<u8>)
    ensures
        b@ == crate::formats::pdf::encoding::be_bytes(seq![gid]),
{
    let b = vec![(gid / 256) as u8, (gid % 256) as u8];
    assert(b@ =~= crate::formats::pdf::encoding::be_bytes(seq![gid]));
    b
}

/// What HarfBuzz shaping with default settings gives for a font and a text:
/// nothing when the font data cannot be parsed, else for each glyph its id,
/// its cluster (a byte offset into the text) and its horizontal offset in
/// font units.
pub uninterp spec fn harfbuzz_clusters(font: Seq<u8>, text: Seq<char>) -> Option<Seq<(u32, u32, i32)>>;

/// Shapes `text` with `rustybuzz::shape` and no features, script or language
/// set, after loading face 0 with `Face::from_slice`. The result is
/// `harfbuzz_clusters` of the arguments; the shaping itself is not restated.
#[verifier::external_body]
fn shape_plain(font: &[u8], text: &str) -> (r: Option<Vec<(u32, u32, i32)>>)
    ensures
        match r {
            Some(v) => harfbuzz_clusters(font@, text@) == Some(v@),
            None => harfbuzz_clusters(font@, text@) is None,
        },
{
    let face = rustybuzz::Face::from_slice(font, 0)?;
    let mut buffer = rustybuzz::UnicodeBuffer::new();
    buffer.push_str(text);
    let out = rustybuzz::shape(&face, &[], buffer);
    let pairs = out.glyph_infos().iter().zip(out.glyph_positions());
    Some(pairs.map(|(i, p)| (i.glyph_id, i.cluster, p.x_offset)).collect())
}

/// The glyph ids of shaped glyphs, as 16-bit CIDs.
pub open spec fn shaped_ids(gs: Seq<(u32, u32, i32)>) -> Seq<u16> {
    gs.map_values(|g: (u32, u32, i32)| g.0 as u16)
}

/// The cluster offsets of shaped glyphs.
pub open spec fn shaped_clusters(gs: Seq<(u32, u32, i32)>) -> Seq<u32> {
    gs.map_values(|g: (u32, u32, i32)| g.1)
}

/// Shapes one line for the fallback font and records its glyphs (see
/// `record_shaped_glyphs`). Gives nothing, and records nothing, when the font
/// cannot be parsed; else, for each glyph, its two-byte CID string and its
/// horizontal offset in font units.
pub fn shape_run(usage: &mut FontUsage, font: &[u8], text: &str) -> (r: Option<Vec<(Vec<u8>, i32)>>)
    requires
        old(usage).wf(),
    ensures
        final(usage).wf(),
        match harfbuzz_clusters(font@, text@) {
            None => r is None && *final(usage) == *old(usage),
            Some(gs) => r matches Some(v) && v@.len() == gs.len() && (forall|i: int|
                0 <= i < gs.len() ==> (#[trigger] v@[i]).0@ == crate::formats::pdf::encoding::be_bytes(
                    seq![gs[i].0 as u16],
                ) && v@[i].1 == gs[i].2) && (forall|g: u16|
                #[trigger] final(usage).glyph_ids().contains(g) <==> (old(usage).glyph_ids().contains(g)
                    || shaped_ids(gs).contains(g))) && (forall|g: u16|
                #[trigger] mapped_text(final(usage).mapping(), g) == match mapped_text(
                    old(usage).mapping(),
                    g,
                ) {
                    Some(t) => Some(t),
                    None => first_cluster_text(text@, shaped_ids(gs), shaped_clusters(gs), g, gs.len() as int),
                }),
        },
{
    let shaped = match shape_plain(font, text) {
        Some(s) => s,
        None => {
            return None;
        },
    };
    let ghost gs = shaped@;
    let mut gids: Vec<u16> = Vec::new();
    let mut clusters: Vec<u32> = Vec::new();
    let mut out: Vec<(Vec<u8>, i32)> = Vec::new();
    let mut i: usize = 0;
    while i < shaped.len()
        invariant
            i <= shaped@.len(),
            gs == shaped@,
            gids@ == shaped_ids(gs).take(i as int),
            clusters@ == shaped_clusters(gs).take(i as int),
            out@.len() == i,
            forall|k: int|
                0 <= k < i ==> (#[trigger] out@[k]).0@ == crate::formats::pdf::encoding::be_bytes(
                    seq![gs[k].0 as u16],
                ) && out@[k].1 == gs[k].2,
        decreases shaped.len() - i,
    {
        let (gid, cluster, x_offset) = shaped[i];
        let cid = (gid % 65536) as u16;
        assert(cid == gid as u16) by (bit_vector)
            requires
                cid == (gid % 65536) as u16,
        ;
        gids.push(cid);
        clusters.push(cluster);
        out.push((cid_string(cid), x_offset));
        assert(gids@ =~= shaped_ids(gs).take(i + 1));
        assert(clusters@ =~= shaped_clusters(gs).take(i + 1));
        i = i + 1;
    }
    assert(gids@ =~= shaped_ids(gs));
    assert(clusters@ =~= shaped_clusters(gs));
    record_shaped_glyphs(usage, text, &gids, &clusters);
    Some(out)
}

} // verus!
