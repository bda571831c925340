//! DOCX translation: the text of each paragraph is read run by run, the
//! translation of a paragraph is spread over its runs in proportion to their
//! original lengths, and each run keeps its formatting.

use vstd::prelude::*;

use crate::error::AppError;
use crate::layout::proportional_split;
use crate::translate::sentence::{concat_all, views};
use crate::text::trim;

verus! {

/// A paragraph as the translator sees it: for each run, its content items in
/// order, a text item holding `Some(text)` and any other item `None`.
pub struct ParagraphModel {
    pub runs: Vec<Vec<Option<String>>>,
}

/// A block of a document body.
pub enum BodyBlock {
    Paragraph(ParagraphModel),
    /// Rows of cells; a cell is `Some(paragraphs)`, other row content `None`.
    Table(Vec<Vec<Option<Vec<ParagraphModel>>>>),
    Other,
}

/// The text of one paragraph and of each of its runs.
pub struct ParaRecord {
    pub text: String,
    pub run_originals: Vec<String>,
}

/// The text items of a run, put together.
pub open spec fn run_text(items: Seq<Option<String>>) -> Seq<char>
    decreases items.len(),
{
    if items.len() == 0 {
        seq![]
    } else {
        run_text(items.drop_last()) + match items.last() {
            Some(t) => t@,
            None => seq![],
        }
    }
}

/// The text of each run of a paragraph.
pub open spec fn run_texts(p: ParagraphModel) -> Seq<Seq<char>> {
    p.runs@.map_values(|r: Vec<Option<String>>| run_text(r@))
}

/// What a record says: the paragraph text and the run texts.
pub open spec fn record_view(r: ParaRecord) -> (Seq<char>, Seq<Seq<char>>) {
    (r.text@, views(r.run_originals@))
}

/// The record of a paragraph: its run texts, and all of them put together.
pub open spec fn paragraph_record(p: ParagraphModel) -> (Seq<char>, Seq<Seq<char>>) {
    (concat_all(run_texts(p)), run_texts(p))
}

/// The paragraphs of a table cell, row by row, cell by cell.
pub open spec fn row_paragraphs(cells: Seq<Option<Vec<ParagraphModel>>>) -> Seq<ParagraphModel>
    decreases cells.len(),
{
    if cells.len() == 0 {
        seq![]
    } else {
        row_paragraphs(cells.drop_last()) + match cells.last() {
            Some(ps) => ps@,
            None => seq![],
        }
    }
}

/// The paragraphs of a table, row by row.
pub open spec fn table_paragraphs(rows: Seq<Vec<Option<Vec<ParagraphModel>>>>) -> Seq<
    ParagraphModel,
>
    decreases rows.len(),
{
    if rows.len() == 0 {
        seq![]
    } else {
        table_paragraphs(rows.drop_last()) + row_paragraphs(rows.last()@)
    }
}

/// The paragraphs of a body in document order: body paragraphs and the
/// paragraphs of table cells.
pub open spec fn body_paragraphs(body: Seq<BodyBlock>) -> Seq<ParagraphModel>
    decreases body.len(),
{
    if body.len() == 0 {
        seq![]
    } else {
        body_paragraphs(body.drop_last()) + match body.last() {
            BodyBlock::Paragraph(p) => seq![p],
            BodyBlock::Table(rows) => table_paragraphs(rows@),
            BodyBlock::Other => seq![],
        }
    }
}

fn copy_string(s: &String) -> (r: String)
    ensures
        r@ == s@,
{
    s.clone()
}

fn append_string(acc: &mut Vec<char>, s: &String)
    ensures
        final(acc)@ == old(acc)@ + s@,
{
    let c = crate::text::chars_of(s.as_str());
    let ghost start = acc@;
    let mut i: usize = 0;
    while i < c.len()
        invariant
            i <= c.len(),
            acc@ == start + c@.take(i as int),
        decreases c.len() - i,
    {
        acc.push(c[i]);
        i = i + 1;
        assert(acc@ =~= start + c@.take(i as int));
    }
    assert(c@.take(c.len() as int) =~= c@);
}

/// Reads a paragraph: the text of each run and the whole paragraph text.
pub fn collect_paragraph(para: &ParagraphModel) -> (r: ParaRecord)
    ensures
        record_view(r) == paragraph_record(*para),
{
    let mut run_originals: Vec<String> = Vec::new();
    let mut all: Vec<char> = Vec::new();
    let mut k: usize = 0;
    while k < para.runs.len()
        invariant
            k <= para.runs.len(),
            views(run_originals@) == run_texts(*para).take(k as int),
            all@ == concat_all(run_texts(*para).take(k as int)),
        decreases para.runs.len() - k,
    {
        let run = &para.runs[k];
        let mut text: Vec<char> = Vec::new();
        let mut j: usize = 0;
        while j < run.len()
            invariant
                k < para.runs.len(),
                run == &para.runs@[k as int],
                j <= run.len(),
                text@ == run_text(run@.take(j as int)),
            decreases run.len() - j,
        {
            assert(run@.take(j as int + 1).drop_last() =~= run@.take(j as int));
            match &run[j] {
                Some(t) => {
                    append_string(&mut text, t);
                },
                None => {
                    assert(text@ + Seq::<char>::empty() =~= text@);
                },
            }
            j = j + 1;
        }
        assert(run@.take(run.len() as int) =~= run@);
        assert(run_texts(*para)[k as int] == text@);
        let s = crate::text::string_from_chars(text.as_slice());
        let ghost before = run_originals@;
        let ghost all0 = all@;
        append_string(&mut all, &s);
        run_originals.push(s);
        assert(views(run_originals@) =~= views(before).push(s@));
        assert(run_texts(*para).take(k as int + 1) =~= run_texts(*para).take(k as int).push(
            text@,
        ));
        assert(run_texts(*para).take(k as int + 1).drop_last() =~= run_texts(*para).take(
            k as int,
        ));
        k = k + 1;
    }
    assert(run_texts(*para).take(para.runs.len() as int) =~= run_texts(*para));
    ParaRecord { text: crate::text::string_from_chars(all.as_slice()), run_originals }
}

/// The records of some paragraphs.
pub open spec fn records_of(ps: Seq<ParagraphModel>) -> Seq<(Seq<char>, Seq<Seq<char>>)> {
    ps.map_values(|p: ParagraphModel| paragraph_record(p))
}

/// The views of some records.
pub open spec fn record_views(rs: Seq<ParaRecord>) -> Seq<(Seq<char>, Seq<Seq<char>>)> {
    rs.map_values(|r: ParaRecord| record_view(r))
}

fn push_records(records: &mut Vec<ParaRecord>, ps: &Vec<ParagraphModel>)
    ensures
        record_views(final(records)@) == record_views(old(records)@) + records_of(ps@),
{
    let ghost start = record_views(records@);
    let mut i: usize = 0;
    while i < ps.len()
        invariant
            i <= ps.len(),
            record_views(records@) == start + records_of(ps@.take(i as int)),
        decreases ps.len() - i,
    {
        let r = collect_paragraph(&ps[i]);
        let ghost before = records@;
        records.push(r);
        assert(record_views(records@) =~= record_views(before).push(record_view(r)));
        assert(records_of(ps@.take(i as int + 1)) =~= records_of(ps@.take(i as int)).push(
            paragraph_record(ps@[i as int]),
        ));
        i = i + 1;
    }
    assert(ps@.take(ps.len() as int) =~= ps@);
}

/// Reads every paragraph of a body, in document order (table cells
/// included).
pub fn collect_all(body: &Vec<BodyBlock>) -> (records: Vec<ParaRecord>)
    ensures
        record_views(records@) == records_of(body_paragraphs(body@)),
{
    let mut records: Vec<ParaRecord> = Vec::new();
    let mut b: usize = 0;
    while b < body.len()
        invariant
            b <= body.len(),
            record_views(records@) == records_of(body_paragraphs(body@.take(b as int))),
        decreases body.len() - b,
    {
        let ghost pre = body_paragraphs(body@.take(b as int));
        assert(body@.take(b as int + 1).drop_last() =~= body@.take(b as int));
        assert(body@.take(b as int + 1).last() == body@[b as int]);
        match &body[b] {
            BodyBlock::Paragraph(p) => {
                let ghost before = records@;
                let r = collect_paragraph(p);
                records.push(r);
                assert(record_views(records@) =~= record_views(before).push(record_view(r)));
                assert(records_of(pre + seq![*p]) =~= records_of(pre).push(paragraph_record(*p)));
            },
            BodyBlock::Table(rows) => {
                let mut ri: usize = 0;
                while ri < rows.len()
                    invariant
                        b < body.len(),
                        ri <= rows.len(),
                        body@[b as int] == BodyBlock::Table(*rows),
                        pre == body_paragraphs(body@.take(b as int)),
                        record_views(records@) == records_of(pre + table_paragraphs(
                            rows@.take(ri as int),
                        )),
                    decreases rows.len() - ri,
                {
                    let row = &rows[ri];
                    let ghost pre_row = pre + table_paragraphs(rows@.take(ri as int));
                    let mut ci: usize = 0;
                    while ci < row.len()
                        invariant
                            ri < rows.len(),
                            row == &rows@[ri as int],
                            ci <= row.len(),
                            record_views(records@) == records_of(pre_row + row_paragraphs(
                                row@.take(ci as int),
                            )),
                        decreases row.len() - ci,
                    {
                        assert(row@.take(ci as int + 1).drop_last() =~= row@.take(ci as int));
                        assert(row@.take(ci as int + 1).last() == row@[ci as int]);
                        match &row[ci] {
                            Some(ps) => {
                                push_records(&mut records, ps);
                                assert(records_of(pre_row + row_paragraphs(
                                    row@.take(ci as int + 1),
                                )) =~= records_of(pre_row + row_paragraphs(row@.take(ci as int)))
                                    + records_of(ps@));
                            },
                            None => {
                                assert(row_paragraphs(row@.take(ci as int + 1)) =~= row_paragraphs(
                                    row@.take(ci as int),
                                ));
                            },
                        }
                        ci = ci + 1;
                    }
                    assert(row@.take(row.len() as int) =~= row@);
                    assert(rows@.take(ri as int + 1).drop_last() =~= rows@.take(ri as int));
                    assert(rows@.take(ri as int + 1).last() == rows@[ri as int]);
                    assert(pre + table_paragraphs(rows@.take(ri as int + 1)) =~= pre_row
                        + row_paragraphs(row@));
                    ri = ri + 1;
                }
                assert(rows@.take(rows.len() as int) =~= rows@);
            },
            BodyBlock::Other => {
                assert(body_paragraphs(body@.take(b as int + 1)) =~= pre);
            },
        }
        b = b + 1;
    }
    assert(body@.take(body.len() as int) =~= body@);
    records
}

/// Spreads a paragraph translation over its runs in proportion to the runs'
/// original lengths (see `proportional_split`).
pub fn distribute(translated: &str, run_originals: &Vec<String>) -> (r: Vec<String>)
    ensures
        views(r@) == proportional_split(translated@, views(run_originals@)),
{
    crate::formats::pdf::reconstructor::redistribute_by_length(translated, run_originals)
}

/// The new text of each run of a translated paragraph: its share of the
/// translation, or nothing for a run that had no text (it is left as is).
pub open spec fn run_updates(translated: Seq<char>, run_originals: Seq<Seq<char>>) -> Seq<
    Option<Seq<char>>,
> {
    let shares = proportional_split(translated, run_originals);
    Seq::new(
        run_originals.len(),
        |k: int|
            if run_originals[k].len() == 0 {
                None
            } else {
                Some(shares[k])
            },
    )
}

/// The views of optional strings.
pub open spec fn opt_views(v: Seq<Option<String>>) -> Seq<Option<Seq<char>>> {
    v.map_values(|o: Option<String>| crate::formats::pdf::reconstructor::opt_view(o))
}

/// The new text of each run of a paragraph (see `run_updates`); a paragraph
/// without runs gets no updates.
pub fn apply_to_paragraph(translated: &str, run_originals: &Vec<String>) -> (r: Vec<Option<String>>)
    ensures
        opt_views(r@) == run_updates(translated@, views(run_originals@)),
{
    let ghost ro = views(run_originals@);
    if run_originals.len() == 0 {
        let r: Vec<Option<String>> = Vec::new();
        assert(opt_views(r@) =~= run_updates(translated@, ro));
        return r;
    }
    let distributed = distribute(translated, run_originals);
    proof {
        crate::layout::lemma_proportional_split_len(translated@, ro);
    }
    let mut r: Vec<Option<String>> = Vec::new();
    let mut k: usize = 0;
    while k < run_originals.len()
        invariant
            k <= run_originals.len(),
            ro == views(run_originals@),
            views(distributed@) == proportional_split(translated@, ro),
            distributed@.len() == run_originals@.len(),
            opt_views(r@) == run_updates(translated@, ro).take(k as int),
        decreases run_originals.len() - k,
    {
        let ghost before = r@;
        if run_originals[k].as_str().is_empty() {
            assert(ro[k as int].len() == 0);
            r.push(None);
        } else {
            assert(ro[k as int].len() > 0);
            r.push(Some(copy_string(&distributed[k])));
        }
        assert(opt_views(r@) =~= opt_views(before).push(run_updates(translated@, ro)[k as int]));
        k = k + 1;
        assert(opt_views(r@) =~= run_updates(translated@, ro).take(k as int));
    }
    assert(run_updates(translated@, ro).take(run_originals.len() as int) =~= run_updates(
        translated@,
        ro,
    ));
    r
}

/// The paragraphs to translate: index and text of every paragraph whose text
/// is not blank.
pub open spec fn paragraph_jobs(rs: Seq<(Seq<char>, Seq<Seq<char>>)>, k: int) -> Seq<
    (int, Seq<char>),
>
    decreases k,
{
    if k <= 0 {
        seq![]
    } else {
        paragraph_jobs(rs, k - 1) + if trim(rs[k - 1].0).len() > 0 {
            seq![(k - 1, rs[k - 1].0)]
        } else {
            seq![]
        }
    }
}

/// Index and text of every paragraph whose text is not blank.
pub fn translation_jobs(records: &Vec<ParaRecord>) -> (jobs: Vec<(usize, String)>)
    ensures
        jobs@.map_values(|j: (usize, String)| (j.0 as int, j.1@)) == paragraph_jobs(
            record_views(records@),
            records@.len() as int,
        ),
{
    let ghost rv = record_views(records@);
    let mut jobs: Vec<(usize, String)> = Vec::new();
    let mut i: usize = 0;
    while i < records.len()
        invariant
            i <= records.len(),
            rv == record_views(records@),
            jobs@.map_values(|j: (usize, String)| (j.0 as int, j.1@)) == paragraph_jobs(
                rv,
                i as int,
            ),
        decreases records.len() - i,
    {
        let c = crate::text::chars_of(records[i].text.as_str());
        let k = crate::text::skip_ws(&c, 0);
        proof {
            assert(c@.skip(0) =~= c@);
            crate::text::lemma_trim_empty_iff_all_ws(c@);
            if k < c.len() {
                assert(!crate::text::is_ws(c@[k as int]));
            }
            assert(rv[i as int].0 == c@);
        }
        let ghost before = jobs@;
        if k < c.len() {
            jobs.push((i, copy_string(&records[i].text)));
            assert(jobs@.map_values(|j: (usize, String)| (j.0 as int, j.1@)) =~= before.map_values(
                |j: (usize, String)| (j.0 as int, j.1@),
            ).push((i as int, rv[i as int].0)));
        } else {
            assert(jobs@ =~= before);
        }
        i = i + 1;
    }
    jobs
}

/// The first failed result, if any.
pub open spec fn first_failure(results: Seq<(usize, Result<String, AppError>)>) -> Option<AppError>
    decreases results.len(),
{
    if results.len() == 0 {
        None
    } else {
        match results[0].1 {
            Err(e) => Some(e),
            Ok(_) => first_failure(results.drop_first()),
        }
    }
}

/// The translation recorded for paragraph `i` after the results: the last
/// successful result for it, if any.
pub open spec fn translation_for(results: Seq<(usize, Result<String, AppError>)>, i: int) -> Option<
    Seq<char>,
>
    decreases results.len(),
{
    if results.len() == 0 {
        None
    } else {
        match results.last().1 {
            Ok(t) => if results.last().0 == i {
                Some(t@)
            } else {
                translation_for(results.drop_last(), i)
            },
            Err(_) => translation_for(results.drop_last(), i),
        }
    }
}

/// Gathers paragraph translations: the first failure (in result order) is
/// returned; otherwise paragraph `i` gets the translation its result gave,
/// and paragraphs without a result get none.
pub fn collect_translations(n: usize, results: Vec<(usize, Result<String, AppError>)>) -> (r: Result<
    Vec<Option<String>>,
    AppError,
>)
    requires
        forall|k: int| 0 <= k < results@.len() ==> (#[trigger] results@[k]).0 < n,
    ensures
        match first_failure(results@) {
            Some(e) => r == Err::<Vec<Option<String>>, AppError>(e),
            None => r matches Ok(t) && t@.len() == n && forall|i: int|
                0 <= i < n ==> crate::formats::pdf::reconstructor::opt_view(#[trigger] t@[i])
                    == translation_for(results@, i),
        },
{
    let ghost res0 = results@;
    let mut pending = results;
    let mut stack: Vec<(usize, Result<String, AppError>)> = Vec::new();
    let m = pending.len();
    while pending.len() > 0
        invariant
            pending@.len() + stack@.len() == m,
            m == res0.len(),
            forall|k: int| 0 <= k < pending@.len() ==> pending@[k] == res0[k],
            forall|k: int| 0 <= k < stack@.len() ==> stack@[k] == res0[m - 1 - k],
        decreases pending@.len(),
    {
        let x = pending.pop().unwrap();
        stack.push(x);
    }
    let mut out: Vec<Option<String>> = Vec::new();
    let mut z: usize = 0;
    while z < n
        invariant
            z <= n,
            out@.len() == z,
            forall|i: int| 0 <= i < z ==> out@[i] is None,
        decreases n - z,
    {
        out.push(None);
        z = z + 1;
    }
    let mut i: usize = 0;
    assert(res0.skip(0) =~= res0);
    while i < m
        invariant
            i <= m,
            m == res0.len(),
            stack@.len() == m - i,
            forall|k: int| 0 <= k < stack@.len() ==> stack@[k] == res0[m - 1 - k],
            forall|k: int| 0 <= k < res0.len() ==> (#[trigger] res0[k]).0 < n,
            out@.len() == n,
            forall|j: int|
                0 <= j < n ==> crate::formats::pdf::reconstructor::opt_view(#[trigger] out@[j])
                    == translation_for(res0.take(i as int), j),
            first_failure(res0) == first_failure(res0.skip(i as int)),
            res0 == results@,
        decreases m - i,
    {
        let item = stack.pop().unwrap();
        assert(item == res0[i as int]);
        assert(res0.skip(i as int)[0] == res0[i as int]);
        assert(res0.skip(i as int).drop_first() =~= res0.skip(i + 1));
        assert(res0.take(i as int + 1).drop_last() =~= res0.take(i as int));
        assert(res0.take(i as int + 1).last() == res0[i as int]);
        let (idx, result) = item;
        match result {
            Ok(t) => {
                let ghost tv = t@;
                out.set(idx, Some(t));
                assert forall|j: int| 0 <= j < n implies crate::formats::pdf::reconstructor::opt_view(
                    #[trigger] out@[j],
                ) == translation_for(res0.take(i as int + 1), j) by {}
            },
            Err(e) => {
                assert(res0[i as int].1 == Err::<String, AppError>(e));
                assert(first_failure(res0.skip(i as int)) == Some(e));
                return Err(e);
            },
        }
        i = i + 1;
    }
    assert(res0.take(m as int) =~= res0);
    assert(res0.skip(m as int) =~= Seq::<(usize, Result<String, AppError>)>::empty());
    Ok(out)
}

/// The new run texts of paragraph `i`, if it gets any: a paragraph with a
/// translation gets `run_updates` of it over its runs; one without (or past
/// the end of the translations) is left as it is.
pub open spec fn paragraph_update(
    records: Seq<ParaRecord>,
    translations: Seq<Option<String>>,
    i: int,
) -> Option<Seq<Option<Seq<char>>>> {
    if i < translations.len() && translations[i] is Some {
        Some(run_updates(translations[i]->0@, views(records[i].run_originals@)))
    } else {
        None
    }
}

/// The run updates of every paragraph, in document order (see
/// `paragraph_update`).
pub fn paragraph_updates(records: &Vec<ParaRecord>, translations: &Vec<Option<String>>) -> (r: Vec<
    Option<Vec<Option<String>>>,
>)
    ensures
        r@.len() == records@.len(),
        forall|i: int|
            0 <= i < records@.len() ==> match paragraph_update(records@, translations@, i) {
                Some(u) => (#[trigger] r@[i]) matches Some(v) && opt_views(v@) == u,
                None => r@[i] is None,
            },
{
    let mut r: Vec<Option<Vec<Option<String>>>> = Vec::new();
    let mut i: usize = 0;
    while i < records.len()
        invariant
            i <= records@.len(),
            r@.len() == i,
            forall|k: int|
                0 <= k < i ==> match paragraph_update(records@, translations@, k) {
                    Some(u) => (#[trigger] r@[k]) matches Some(v) && opt_views(v@) == u,
                    None => r@[k] is None,
                },
        decreases records.len() - i,
    {
        let update = if i < translations.len() {
            match &translations[i] {
                Some(t) => Some(apply_to_paragraph(t.as_str(), &records[i].run_originals)),
                None => None,
            }
        } else {
            None
        };
        r.push(update);
        i = i + 1;
    }
    r
}

/// The paragraphs held by one cell (none for other row content).
pub open spec fn cell_paragraphs(c: Option<Vec<ParagraphModel>>) -> Seq<ParagraphModel> {
    match c {
        Some(ps) => ps@,
        None => seq![],
    }
}

/// The paragraphs of a row are those of its cells, from the first cell to
/// the last.
pub proof fn row_paragraphs_in_cell_order(cells: Seq<Option<Vec<ParagraphModel>>>)
    ensures
        row_paragraphs(cells) == cells.map_values(|c: Option<Vec<ParagraphModel>>| cell_paragraphs(c)).flatten(),
    decreases cells.len(),
{
    let m = cells.map_values(|c: Option<Vec<ParagraphModel>>| cell_paragraphs(c));
    m.lemma_flatten_and_flatten_alt_are_equivalent();
    if cells.len() > 0 {
        row_paragraphs_in_cell_order(cells.drop_last());
        let md = cells.drop_last().map_values(|c: Option<Vec<ParagraphModel>>| cell_paragraphs(c));
        md.lemma_flatten_and_flatten_alt_are_equivalent();
        assert(m.drop_last() =~= md);
        assert(m.last() == cell_paragraphs(cells.last()));
    }
}

/// The paragraphs of a table are read in document order: those of the first
/// row, then those of the second, and so on to the last row.
pub proof fn table_paragraphs_in_row_order(rows: Seq<Vec<Option<Vec<ParagraphModel>>>>)
    ensures
        table_paragraphs(rows) == rows.map_values(
            |r: Vec<Option<Vec<ParagraphModel>>>| row_paragraphs(r@),
        ).flatten(),
        forall|r: Vec<Option<Vec<ParagraphModel>>>|
            #[trigger] table_paragraphs(seq![r] + rows) == row_paragraphs(r@) + table_paragraphs(rows),
    decreases rows.len(),
{
    let m = rows.map_values(|r: Vec<Option<Vec<ParagraphModel>>>| row_paragraphs(r@));
    m.lemma_flatten_and_flatten_alt_are_equivalent();
    if rows.len() > 0 {
        table_paragraphs_in_row_order(rows.drop_last());
        let md = rows.drop_last().map_values(
            |r: Vec<Option<Vec<ParagraphModel>>>| row_paragraphs(r@),
        );
        md.lemma_flatten_and_flatten_alt_are_equivalent();
        assert(m.drop_last() =~= md);
    }
    assert forall|r: Vec<Option<Vec<ParagraphModel>>>|
        #[trigger] table_paragraphs(seq![r] + rows) == row_paragraphs(r@) + table_paragraphs(rows) by {
        table_paragraphs_in_row_order_front(r, rows);
    }
}

proof fn table_paragraphs_in_row_order_front(
    r: Vec<Option<Vec<ParagraphModel>>>,
    rows: Seq<Vec<Option<Vec<ParagraphModel>>>>,
)
    ensures
        table_paragraphs(seq![r] + rows) == row_paragraphs(r@) + table_paragraphs(rows),
    decreases rows.len(),
{
    let all = seq![r] + rows;
    if rows.len() == 0 {
        assert(all =~= seq![r]);
        assert(all.drop_last() =~= Seq::<Vec<Option<Vec<ParagraphModel>>>>::empty());
        assert(all.last() == r);
        assert(table_paragraphs(Seq::<Vec<Option<Vec<ParagraphModel>>>>::empty()) =~= Seq::<
            ParagraphModel,
        >::empty());
        assert(table_paragraphs(all) =~= row_paragraphs(r@));
        assert(row_paragraphs(r@) + table_paragraphs(rows) =~= row_paragraphs(r@));
    } else {
        table_paragraphs_in_row_order_front(r, rows.drop_last());
        assert(all.drop_last() =~= seq![r] + rows.drop_last());
        assert(all.last() == rows.last());
        assert(table_paragraphs(all) =~= row_paragraphs(r@) + table_paragraphs(rows));
    }
}

/// A table block contributes its paragraphs row by row from the first row,
/// so the records `collect_all` reads follow the rows top to bottom.
pub proof fn table_block_in_row_order(rows: Vec<Vec<Option<Vec<ParagraphModel>>>>)
    ensures
        body_paragraphs(seq![BodyBlock::Table(rows)]) == rows@.map_values(
            |r: Vec<Option<Vec<ParagraphModel>>>| row_paragraphs(r@),
        ).flatten(),
{
    let b = seq![BodyBlock::Table(rows)];
    assert(b.drop_last() =~= Seq::<BodyBlock>::empty());
    assert(b.last() == BodyBlock::Table(rows));
    assert(body_paragraphs(Seq::<BodyBlock>::empty()) =~= Seq::<ParagraphModel>::empty());
    assert(body_paragraphs(b) =~= table_paragraphs(rows@));
    table_paragraphs_in_row_order(rows@);
}

} // verus!
