//! The glyphs a rewritten document uses from the embedded fallback font, and
//! the font tables built from them: the identity CID-to-GID map and the
//! ToUnicode CMap.

use std::collections::{HashMap, HashSet};

use vstd::prelude::*;

use crate::formats::pdf::encoding::{be_bytes, hex4, hex_units, utf16_units};

verus! {

/// Strictly increasing.
pub open spec fn increasing(s: Seq<u16>) -> bool {
    forall|i: int, j: int| 0 <= i < j < s.len() ==> s[i] < s[j]
}

/// The keys of a list of pairs.
pub open spec fn keys_of(m: Seq<(u16, Seq<char>)>) -> Seq<u16> {
    m.map_values(|e: (u16, Seq<char>)| e.0)
}

/// The text recorded for glyph `g`, if any.
pub open spec fn mapped_text(m: Seq<(u16, Seq<char>)>, g: u16) -> Option<Seq<char>> {
    if exists|i: int| 0 <= i < m.len() && m[i].0 == g {
        Some(m[choose|i: int| 0 <= i < m.len() && m[i].0 == g].1)
    } else {
        None
    }
}

/// The ids below `n` that are in `s`, in increasing order.
pub open spec fn ids_below(s: Set<u16>, n: int) -> Seq<u16>
    decreases n,
{
    if n <= 0 {
        seq![]
    } else {
        ids_below(s, n - 1) + if s.contains((n - 1) as u16) {
            seq![(n - 1) as u16]
        } else {
            seq![]
        }
    }
}

/// All ids of a set, in increasing order.
pub open spec fn sorted_ids(s: Set<u16>) -> Seq<u16> {
    ids_below(s, 0x10000)
}

/// `ids_below` is increasing, below `n`, and holds exactly the members of
/// the set below `n`.
pub proof fn lemma_ids_below(s: Set<u16>, n: int)
    requires
        0 <= n <= 0x10000,
    ensures
        increasing(ids_below(s, n)),
        forall|i: int| 0 <= i < ids_below(s, n).len() ==> (#[trigger] ids_below(s, n)[i]) < n,
        forall|x: u16| #[trigger] ids_below(s, n).contains(x) <==> (x < n && s.contains(x)),
    decreases n,
{
    if n > 0 {
        lemma_ids_below(s, n - 1);
        let prev = ids_below(s, n - 1);
        let cur = ids_below(s, n);
        assert forall|x: u16| #[trigger] cur.contains(x) <==> (x < n && s.contains(x)) by {
            if cur.contains(x) {
                let k = choose|k: int| 0 <= k < cur.len() && cur[k] == x;
                if k < prev.len() {
                    assert(prev[k] == x);
                    assert(prev.contains(x));
                } else {
                    assert(s.contains((n - 1) as u16));
                    assert(cur[k] == (n - 1) as u16);
                    assert(((n - 1) as u16) as int == n - 1);
                }
            }
            if x < n && s.contains(x) {
                if x < n - 1 {
                    assert(prev.contains(x));
                    let k = choose|k: int| 0 <= k < prev.len() && prev[k] == x;
                    assert(cur[k] == x);
                } else {
                    assert(x as int == n - 1);
                    assert((n - 1) as u16 == x);
                    assert(cur[prev.len() as int] == x);
                }
            }
        }
        assert forall|i: int| 0 <= i < cur.len() implies (#[trigger] cur[i]) < n by {
            if i < prev.len() {
                assert(cur[i] == prev[i]);
            }
        }
        assert forall|i: int, j: int| 0 <= i < j < cur.len() implies cur[i] < cur[j] by {
            if j < prev.len() {
                assert(cur[i] == prev[i] && cur[j] == prev[j]);
            } else {
                assert(cur[i] == prev[i]);
                assert(prev[i] < n - 1);
            }
        }
    }
}

/// The sorted ids of a set are increasing and hold exactly its members.
pub proof fn lemma_sorted_ids(s: Set<u16>)
    ensures
        increasing(sorted_ids(s)),
        forall|x: u16| #[trigger] sorted_ids(s).contains(x) <==> s.contains(x),
        sorted_ids(s).len() == 0 <==> s == Set::<u16>::empty(),
{
    lemma_ids_below(s, 0x10000);
    if sorted_ids(s).len() == 0 {
        assert forall|x: u16| !s.contains(x) by {
            if s.contains(x) {
                assert(sorted_ids(s).contains(x));
            }
        }
        assert(s =~= Set::<u16>::empty());
    } else {
        assert(sorted_ids(s).contains(sorted_ids(s)[0]));
    }
}

/// Glyphs drawn with the fallback font, and the text each glyph stands for.
pub struct FontUsage {
    glyphs: HashSet<u16>,
    cmap: HashMap<u16, String>,
}

impl FontUsage {
    /// The glyph ids used, in increasing order.
    pub closed spec fn glyph_ids(&self) -> Seq<u16> {
        sorted_ids(self.glyphs@)
    }

    /// The (glyph id, text) pairs recorded, in increasing glyph order.
    pub closed spec fn mapping(&self) -> Seq<(u16, Seq<char>)> {
        sorted_ids(self.cmap@.dom()).map_values(|k: u16| (k, self.cmap@[k]@))
    }

    /// The glyph ids and the recorded texts are listed in strictly
    /// increasing glyph order.
    pub open spec fn wf(&self) -> bool {
        increasing(self.glyph_ids()) && increasing(keys_of(self.mapping()))
    }

    proof fn lemma_wf(&self)
        ensures
            self.wf(),
            forall|g: u16| #[trigger] self.glyph_ids().contains(g) <==> self.glyphs@.contains(g),
            forall|g: u16|
                #[trigger] mapped_text(self.mapping(), g) == if self.cmap@.dom().contains(g) {
                    Some(self.cmap@[g]@)
                } else {
                    None::<Seq<char>>
                },
            self.mapping().len() == 0 <==> self.cmap@.dom() == Set::<u16>::empty(),
    {
        lemma_sorted_ids(self.glyphs@);
        let keys = sorted_ids(self.cmap@.dom());
        lemma_sorted_ids(self.cmap@.dom());
        let m = self.mapping();
        assert(keys_of(m) =~= keys);
        assert forall|g: u16| #[trigger] mapped_text(m, g) == if self.cmap@.dom().contains(g) {
            Some(self.cmap@[g]@)
        } else {
            None::<Seq<char>>
        } by {
            if self.cmap@.dom().contains(g) {
                assert(keys.contains(g));
                let k = choose|k: int| 0 <= k < keys.len() && keys[k] == g;
                assert(m[k].0 == g);
            } else {
                if exists|k: int| 0 <= k < m.len() && m[k].0 == g {
                    let k = choose|k: int| 0 <= k < m.len() && m[k].0 == g;
                    assert(keys[k] == g);
                    assert(keys.contains(g));
                }
            }
        }
    }

    /// The glyph ids used, in increasing order.
    pub fn glyph_list(&self) -> (g: Vec<u16>)
        ensures
            g@ == self.glyph_ids(),
    {
        broadcast use vstd::std_specs::hash::group_hash_axioms;

        let mut out: Vec<u16> = Vec::new();
        let mut c: u32 = 0;
        while c < 0x10000
            invariant
                c <= 0x10000,
                out@ == ids_below(self.glyphs@, c as int),
            decreases 0x10000 - c,
        {
            let id = c as u16;
            if self.glyphs.contains(&id) {
                out.push(id);
            }
            assert(out@ =~= ids_below(self.glyphs@, c + 1));
            c = c + 1;
        }
        out
    }

    /// The recorded (glyph id, text) pairs, in increasing glyph order.
    pub fn entries(&self) -> (e: Vec<(u16, String)>)
        ensures
            e@.map_values(|x: (u16, String)| (x.0, x.1@)) == self.mapping(),
    {
        broadcast use vstd::std_specs::hash::group_hash_axioms;

        let ghost keys = sorted_ids(self.cmap@.dom());
        let mut out: Vec<(u16, String)> = Vec::new();
        let mut c: u32 = 0;
        while c < 0x10000
            invariant
                c <= 0x10000,
                keys == sorted_ids(self.cmap@.dom()),
                out@.map_values(|x: (u16, String)| (x.0, x.1@)) == ids_below(self.cmap@.dom(), c as int).map_values(
                    |k: u16| (k, self.cmap@[k]@),
                ),
            decreases 0x10000 - c,
        {
            let id = c as u16;
            let ghost before = out@;
            let ghost dom = self.cmap@.dom();
            let ghost f = |k: u16| (k, self.cmap@[k]@);
            assert(ids_below(dom, c + 1) == ids_below(dom, c as int) + if dom.contains(id) {
                seq![id]
            } else {
                seq![]
            });
            match self.cmap.get(&id) {
                Some(t) => {
                    assert(dom.contains(id) && self.cmap@[id] == *t);
                    out.push((id, t.clone()));
                    assert(ids_below(dom, c + 1).map_values(f) =~= ids_below(dom, c as int).map_values(
                        f,
                    ).push((id, self.cmap@[id]@)));
                },
                None => {
                    assert(!dom.contains(id));
                    assert(ids_below(dom, c + 1) =~= ids_below(dom, c as int));
                },
            }
            assert(out@.map_values(|x: (u16, String)| (x.0, x.1@)) =~= ids_below(dom, c + 1).map_values(f));
            c = c + 1;
        }
        out
    }

    /// No glyphs used yet.
    pub fn new() -> (u: FontUsage)
        ensures
            u.wf(),
            u.glyph_ids().len() == 0,
            u.mapping().len() == 0,
    {
        let u = FontUsage { glyphs: HashSet::new(), cmap: HashMap::new() };
        proof {
            u.lemma_wf();
            lemma_sorted_ids(u.glyphs@);
            assert(u.cmap@.dom() =~= Set::<u16>::empty());
        }
        u
    }

    /// Whether no glyph has been used.
    pub fn has_no_glyphs(&self) -> (b: bool)
        ensures
            b == (self.glyph_ids().len() == 0),
    {
        proof {
            lemma_sorted_ids(self.glyphs@);
        }
        let b = self.glyphs.is_empty();
        proof {
            if b {
                assert(self.glyphs@ =~= Set::<u16>::empty());
            } else if self.glyphs@ == Set::<u16>::empty() {
                assert(self.glyphs@.len() == 0);
            }
        }
        b
    }

    /// Whether no glyph has text recorded yet.
    pub fn has_no_text(&self) -> (b: bool)
        ensures
            b == (self.mapping().len() == 0),
    {
        proof {
            self.lemma_wf();
        }
        let b = self.cmap.is_empty();
        proof {
            if b {
                assert(self.cmap@.dom() =~= Set::<u16>::empty());
            } else if self.cmap@.dom() == Set::<u16>::empty() {
                assert(self.cmap@.dom().len() == 0);
            }
        }
        b
    }

    /// Records that glyph `gid` is drawn.
    pub fn insert_glyph(&mut self, gid: u16)
        requires
            old(self).wf(),
        ensures
            final(self).wf(),
            final(self).mapping() == old(self).mapping(),
            forall|g: u16|
                #[trigger] final(self).glyph_ids().contains(g) <==> (old(self).glyph_ids().contains(g)
                    || g == gid),
    {
        broadcast use vstd::std_specs::hash::group_hash_axioms;

        proof {
            old(self).lemma_wf();
        }
        self.glyphs.insert(gid);
        proof {
            self.lemma_wf();
        }
    }

    /// Records the text that glyph `gid` stands for, unless it already has one.
    pub fn map_glyph(&mut self, gid: u16, text: String)
        requires
            old(self).wf(),
        ensures
            final(self).wf(),
            final(self).glyph_ids() == old(self).glyph_ids(),
            forall|g: u16|
                #[trigger] mapped_text(final(self).mapping(), g) == (if g == gid && mapped_text(
                    old(self).mapping(),
                    g,
                ) is None {
                    Some(text@)
                } else {
                    mapped_text(old(self).mapping(), g)
                }),
    {
        broadcast use vstd::std_specs::hash::group_hash_axioms;

        proof {
            old(self).lemma_wf();
        }
        if !self.cmap.contains_key(&gid) {
            self.cmap.insert(gid, text);
        }
        proof {
            self.lemma_wf();
        }
    }
}

/// The identity CID-to-GID map: for every CID from 0 up to the largest glyph
/// id used, the CID itself as two big-endian bytes (no bytes when no glyph is
/// used).
pub open spec fn identity_cid_map(glyphs: Seq<u16>) -> Seq<u8> {
    if glyphs.len() == 0 {
        seq![]
    } else {
        be_bytes(Seq::new((glyphs.last() + 1) as nat, |c: int| c as u16))
    }
}

/// Builds the identity CID-to-GID map for the glyphs used.
pub fn build_cid_to_gid_map_identity(usage: &FontUsage) -> (map: Vec<u8>)
    requires
        usage.wf(),
    ensures
        map@ == identity_cid_map(usage.glyph_ids()),
{
    let ids = usage.glyph_list();
    let n = ids.len();
    if n == 0 {
        return Vec::new();
    }
    let max_cid = ids[n - 1] as usize;
    let ghost target = identity_cid_map(usage.glyph_ids());
    let mut map: Vec<u8> = Vec::new();
    let mut cid: usize = 0;
    while cid <= max_cid
        invariant
            max_cid < 0x10000,
            cid <= max_cid + 1,
            target == be_bytes(Seq::new((max_cid + 1) as nat, |c: int| c as u16)),
            map@ == target.take(2 * cid),
        decreases max_cid + 1 - cid,
    {
        map.push((cid / 256) as u8);
        map.push((cid % 256) as u8);
        assert((2 * cid) / 2 == cid);
        assert((2 * cid + 1) / 2 == cid);
        assert(map@ =~= target.take(2 * cid + 2));
        cid = cid + 1;
    }
    assert(target.take(2 * (max_cid + 1)) =~= target);
    map
}

/// Start of the ToUnicode CMap program.
pub open spec fn cmap_header() -> Seq<char> {
    "/CIDInit /ProcSet findresource begin\n12 dict begin\nbegincmap\n/CIDSystemInfo << /Registry (Adobe) /Ordering (Identity) /Supplement 0 >> def\n/CMapName /Adobe-Identity-UCS def\n/CMapType 2 def\n1 begincodespacerange\n<0000> <FFFF>\nendcodespacerange\n"@
}

/// End of the ToUnicode CMap program.
pub open spec fn cmap_trailer() -> Seq<char> {
    "endcmap\nCMapName currentdict /CMap defineresource pop\nend\nend\n"@
}

/// One `bfchar` line: the CID and the UTF-16 of its text, in hex.
pub open spec fn bfchar_line(e: (u16, Seq<char>)) -> Seq<char> {
    seq!['<'] + hex4(e.0) + seq!['>', ' ', '<'] + hex_units(utf16_units(e.1)) + seq!['>', '\n']
}

/// The `bfchar` lines of some entries.
pub open spec fn bfchar_lines(es: Seq<(u16, Seq<char>)>) -> Seq<char>
    decreases es.len(),
{
    if es.len() == 0 {
        seq![]
    } else {
        bfchar_lines(es.drop_last()) + bfchar_line(es.last())
    }
}

/// Most entries per `beginbfchar` block.
pub open spec fn block_size() -> int {
    100
}

/// One `beginbfchar` block.
pub open spec fn bfchar_block(es: Seq<(u16, Seq<char>)>) -> Seq<char> {
    crate::text::decimal(es.len()) + " beginbfchar\n"@ + bfchar_lines(es) + "endbfchar\n"@
}

/// The blocks for the entries, 100 entries per block.
pub open spec fn bfchar_blocks(es: Seq<(u16, Seq<char>)>) -> Seq<char>
    decreases es.len(),
{
    if es.len() == 0 {
        seq![]
    } else if es.len() <= block_size() {
        bfchar_block(es)
    } else {
        bfchar_block(es.take(block_size())) + bfchar_blocks(es.skip(block_size()))
    }
}

/// The whole ToUnicode CMap program for the recorded glyph texts.
pub open spec fn tounicode_cmap(es: Seq<(u16, Seq<char>)>) -> Seq<char> {
    cmap_header() + bfchar_blocks(es) + cmap_trailer()
}

fn push_bfchar_line(out: &mut Vec<char>, cid: u16, text: &String)
    ensures
        final(out)@ == old(out)@ + bfchar_line((cid, text@)),
{
    let ghost start = out@;
    out.push('<');
    crate::formats::pdf::encoding::push_hex4(out, cid);
    out.push('>');
    out.push(' ');
    out.push('<');
    let hex = crate::formats::pdf::encoding::encode_utf16be_hex_str(text.as_str());
    let h = crate::text::chars_of(hex.as_str());
    let mut i: usize = 0;
    let ghost mid = out@;
    while i < h.len()
        invariant
            i <= h.len(),
            out@ == mid + h@.take(i as int),
        decreases h.len() - i,
    {
        out.push(h[i]);
        i = i + 1;
        assert(out@ =~= mid + h@.take(i as int));
    }
    assert(h@.take(h.len() as int) =~= h@);
    out.push('>');
    out.push('\n');
    assert(out@ =~= start + bfchar_line((cid, text@)));
}

fn push_bfchar_block(out: &mut Vec<char>, entries: &Vec<(u16, String)>, start: usize, end: usize)
    requires
        start <= end <= entries@.len(),
    ensures
        final(out)@ == old(out)@ + bfchar_block(
            entries@.map_values(|x: (u16, String)| (x.0, x.1@)).subrange(start as int, end as int),
        ),
{
    let ghost es = entries@.map_values(|x: (u16, String)| (x.0, x.1@));
    crate::text::push_decimal(out, (end - start) as u128);
    crate::text::push_str(out, " beginbfchar\n");
    let mut k = start;
    let ghost mid = out@;
    while k < end
        invariant
            start <= k <= end <= entries@.len(),
            es == entries@.map_values(|x: (u16, String)| (x.0, x.1@)),
            out@ == mid + bfchar_lines(es.subrange(start as int, k as int)),
        decreases end - k,
    {
        assert(es[k as int] == (entries@[k as int].0, entries@[k as int].1@));
        push_bfchar_line(out, entries[k].0, &entries[k].1);
        assert(es.subrange(start as int, k + 1).drop_last() =~= es.subrange(start as int, k as int));
        k = k + 1;
    }
    crate::text::push_str(out, "endbfchar\n");
}

/// Builds the ToUnicode CMap for the recorded glyph texts, as bytes.
pub fn build_tounicode_cmap_from_mapping(usage: &FontUsage) -> (b: Vec<u8>)
    requires
        usage.wf(),
    ensures
        b@ == vstd::utf8::encode_utf8(tounicode_cmap(usage.mapping())),
{
    let entries = usage.entries();
    let ghost es = usage.mapping();
    let mut out: Vec<char> = Vec::new();
    crate::text::push_str(&mut out, "/CIDInit /ProcSet findresource begin\n12 dict begin\nbegincmap\n/CIDSystemInfo << /Registry (Adobe) /Ordering (Identity) /Supplement 0 >> def\n/CMapName /Adobe-Identity-UCS def\n/CMapType 2 def\n1 begincodespacerange\n<0000> <FFFF>\nendcodespacerange\n");
    let n = entries.len();
    let mut start: usize = 0;
    assert(es.skip(0) =~= es);
    while start < n
        invariant
            start <= n,
            n == entries@.len(),
            es == entries@.map_values(|x: (u16, String)| (x.0, x.1@)),
            out@ + bfchar_blocks(es.skip(start as int)) == cmap_header() + bfchar_blocks(es),
        decreases n - start,
    {
        let ghost rest = es.skip(start as int);
        let end: usize = if n - start <= 100 {
            n
        } else {
            start + 100
        };
        let ghost before = out@;
        push_bfchar_block(&mut out, &entries, start, end);
        proof {
            let chunk = es.subrange(start as int, end as int);
            if n - start <= 100 {
                assert(chunk =~= rest);
                assert(es.skip(end as int) =~= Seq::<(u16, Seq<char>)>::empty());
            } else {
                assert(chunk =~= rest.take(100));
                assert(es.skip(end as int) =~= rest.skip(100));
            }
            assert(out@ + bfchar_blocks(es.skip(end as int)) =~= before + bfchar_blocks(rest));
        }
        start = end;
    }
    assert(es.skip(n as int) =~= Seq::<(u16, Seq<char>)>::empty());
    crate::text::push_str(&mut out, "endcmap\nCMapName currentdict /CMap defineresource pop\nend\nend\n");
    assert(out@ =~= tounicode_cmap(es));
    let s = crate::text::string_from_chars(out.as_slice());
    vstd::slice::slice_to_vec(s.as_str().as_bytes())
}

} // verus!
