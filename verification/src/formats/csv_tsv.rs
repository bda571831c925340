//! CSV/TSV translation: which cells to translate and how the results are
//! put back.

use vstd::prelude::*;

use crate::app::{lower_extension, no_extension_message};
use crate::error::AppError;
use crate::text::{chars_of, trim};

verus! {

/// The field separator for a file: a tab for `.tsv`, a comma otherwise; a
/// path without an extension is an invalid argument.
pub fn delimiter_for(path: &str) -> (r: Result<u8, AppError>)
    ensures
        match lower_extension(path@) {
            Some(e) => r == Ok::<u8, AppError>(
                if e == "tsv"@ {
                    9u8
                } else {
                    44u8
                },
            ),
            None => r matches Err(AppError::InvalidArgument { message }) && message@
                == no_extension_message(path@),
        },
{
    let ext = crate::app::extension(path)?;
    let e = chars_of(ext.as_str());
    let tsv = chars_of("tsv");
    if crate::text::chars_equal(&e, &tsv) {
        Ok(9u8)
    } else {
        Ok(44u8)
    }
}

/// The views of a table of strings.
pub open spec fn table_view(rows: Seq<Vec<String>>) -> Seq<Seq<Seq<char>>> {
    rows.map_values(|r: Vec<String>| r@.map_values(|c: String| c@))
}

/// The cells of row `r` among its first `k` that are not blank, as
/// `(row, column, text)`.
pub open spec fn row_jobs(row: Seq<Seq<char>>, r: int, k: int) -> Seq<(int, int, Seq<char>)>
    decreases k,
{
    if k <= 0 {
        seq![]
    } else {
        row_jobs(row, r, k - 1) + if trim(row[k - 1]).len() > 0 {
            seq![(r, k - 1, row[k - 1])]
        } else {
            seq![]
        }
    }
}

/// The non-blank cells of the first `k` rows, row by row, left to right.
pub open spec fn table_jobs(rows: Seq<Seq<Seq<char>>>, k: int) -> Seq<(int, int, Seq<char>)>
    decreases k,
{
    if k <= 0 {
        seq![]
    } else {
        table_jobs(rows, k - 1) + row_jobs(rows[k - 1], k - 1, rows[k - 1].len() as int)
    }
}

/// The view of a job list.
pub open spec fn jobs_view(v: Seq<(usize, usize, String)>) -> Seq<(int, int, Seq<char>)> {
    v.map_values(|j: (usize, usize, String)| (j.0 as int, j.1 as int, j.2@))
}

/// The cells to translate: every cell that is not blank, as
/// `(row, column, text)`, row by row and left to right.
pub fn translation_jobs(rows: &Vec<Vec<String>>) -> (jobs: Vec<(usize, usize, String)>)
    ensures
        jobs_view(jobs@) == table_jobs(table_view(rows@), rows@.len() as int),
{
    let ghost tv = table_view(rows@);
    let mut jobs: Vec<(usize, usize, String)> = Vec::new();
    let mut r: usize = 0;
    while r < rows.len()
        invariant
            r <= rows.len(),
            tv == table_view(rows@),
            jobs_view(jobs@) == table_jobs(tv, r as int),
        decreases rows.len() - r,
    {
        let row = &rows[r];
        assert(tv[r as int] == row@.map_values(|c: String| c@));
        let mut c: usize = 0;
        while c < row.len()
            invariant
                r < rows.len(),
                row == &rows@[r as int],
                c <= row.len(),
                tv == table_view(rows@),
                tv[r as int] == row@.map_values(|c: String| c@),
                jobs_view(jobs@) == table_jobs(tv, r as int) + row_jobs(
                    tv[r as int],
                    r as int,
                    c as int,
                ),
            decreases row.len() - c,
        {
            let cell = chars_of(row[c].as_str());
            let k = crate::text::skip_ws(&cell, 0);
            proof {
                assert(cell@.skip(0) =~= cell@);
                crate::text::lemma_trim_empty_iff_all_ws(cell@);
                if k < cell.len() {
                    assert(!crate::text::is_ws(cell@[k as int]));
                }
                assert(tv[r as int][c as int] == cell@);
            }
            let ghost before = jobs@;
            if k < cell.len() {
                jobs.push((r, c, row[c].clone()));
                assert(jobs_view(jobs@) =~= jobs_view(before).push(
                    (r as int, c as int, cell@),
                ));
            }
            c = c + 1;
            assert(jobs_view(jobs@) =~= table_jobs(tv, r as int) + row_jobs(
                tv[r as int],
                r as int,
                c as int,
            ));
        }
        r = r + 1;
    }
    jobs
}

/// The table with some cells replaced, in order.
pub open spec fn with_updates(
    rows: Seq<Seq<Seq<char>>>,
    updates: Seq<(int, int, Seq<char>)>,
) -> Seq<Seq<Seq<char>>>
    decreases updates.len(),
{
    if updates.len() == 0 {
        rows
    } else {
        let u = updates.last();
        let t = with_updates(rows, updates.drop_last());
        t.update(u.0, t[u.0].update(u.1, u.2))
    }
}

/// The successful results, as updates.
pub open spec fn successes(results: Seq<(usize, usize, Result<String, AppError>)>) -> Seq<
    (int, int, Seq<char>),
>
    decreases results.len(),
{
    if results.len() == 0 {
        seq![]
    } else {
        let rest = successes(results.drop_last());
        match results.last().2 {
            Ok(s) => rest.push((results.last().0 as int, results.last().1 as int, s@)),
            Err(_) => rest,
        }
    }
}

/// The first failed result, if any.
pub open spec fn first_error(results: Seq<(usize, usize, Result<String, AppError>)>) -> Option<
    AppError,
>
    decreases results.len(),
{
    if results.len() == 0 {
        None
    } else {
        match results[0].2 {
            Err(e) => Some(e),
            Ok(_) => first_error(results.drop_first()),
        }
    }
}

/// Whether every result names a cell of the table.
pub open spec fn results_in_range(
    rows: Seq<Vec<String>>,
    results: Seq<(usize, usize, Result<String, AppError>)>,
) -> bool {
    forall|i: int|
        0 <= i < results.len() ==> (#[trigger] results[i]).0 < rows.len() && results[i].1
            < rows[results[i].0 as int].len()
}

/// Puts translated cells back: the first failure (in result order) is
/// returned, else the table with every translated cell replaced.
pub fn apply_cell_results(
    rows: Vec<Vec<String>>,
    results: Vec<(usize, usize, Result<String, AppError>)>,
) -> (r: Result<Vec<Vec<String>>, AppError>)
    requires
        results_in_range(rows@, results@),
    ensures
        match first_error(results@) {
            Some(e) => r == Err::<Vec<Vec<String>>, AppError>(e),
            None => r matches Ok(t) && table_view(t@) == with_updates(
                table_view(rows@),
                successes(results@),
            ),
        },
{
    let mut table = rows;
    let ghost rows0 = table@;
    let ghost res0 = results@;
    let n = results.len();
    let mut results = results;
    let mut stack: Vec<(usize, usize, Result<String, AppError>)> = Vec::new();
    while results.len() > 0
        invariant
            results@.len() + stack@.len() == n,
            n == res0.len(),
            forall|k: int| 0 <= k < results@.len() ==> results@[k] == res0[k],
            forall|k: int| 0 <= k < stack@.len() ==> stack@[k] == res0[n - 1 - k],
        decreases results@.len(),
    {
        let x = results.pop().unwrap();
        stack.push(x);
    }
    let mut failure: Option<AppError> = None;
    let mut i: usize = 0;
    assert(res0.skip(0) =~= res0);
    while i < n
        invariant
            i <= n,
            n == res0.len(),
            stack@.len() == n - i,
            forall|k: int| 0 <= k < stack@.len() ==> stack@[k] == res0[n - 1 - k],
            results_in_range(rows0, res0),
            table@.len() == rows0.len(),
            forall|k: int| 0 <= k < rows0.len() ==> (#[trigger] table@[k]).len() == rows0[k].len(),
            table_view(table@) == with_updates(table_view(rows0), successes(res0.take(i as int))),
            match failure {
                Some(e) => first_error(res0) == Some(e),
                None => first_error(res0) == first_error(res0.skip(i as int)),
            },
        decreases n - i,
    {
        let item = stack.pop().unwrap();
        assert(item == res0[i as int]);
        let (row, col, result) = item;
        assert(res0.take(i as int + 1).drop_last() =~= res0.take(i as int));
        assert(res0.skip(i as int)[0] == res0[i as int]);
        assert(res0.skip(i as int).drop_first() =~= res0.skip(i + 1));
        match result {
            Ok(text) => {
                let ghost before = table@;
                let ghost tview = text@;
                assert(tview == res0[i as int].2->Ok_0@);
                let mut cells = table[row].clone();
                assert(cells@ == before[row as int]@);
                cells.set(col, text);
                assert(cells@.map_values(|c: String| c@) =~= before[row as int]@.map_values(
                    |c: String| c@,
                ).update(col as int, tview));
                table.set(row, cells);
                assert(table_view(table@) =~= table_view(before).update(
                    row as int,
                    table_view(before)[row as int].update(col as int, tview),
                ));
                let ghost ups = successes(res0.take(i as int));
                assert(res0.take(i as int + 1).last() == res0[i as int]);
                assert(successes(res0.take(i as int + 1)) == ups.push(
                    (row as int, col as int, tview),
                ));
                assert(ups.push((row as int, col as int, tview)).drop_last() =~= ups);
            },
            Err(e) => {
                assert(res0.take(i as int + 1).last() == res0[i as int]);
                if failure.is_none() {
                    failure = Some(e);
                }
            },
        }
        i = i + 1;
    }
    assert(res0.take(n as int) =~= res0);
    match failure {
        Some(e) => Err(e),
        None => {
            assert(res0.skip(n as int) =~= Seq::<(usize, usize, Result<String, AppError>)>::empty());
            Ok(table)
        },
    }
}

/// Whether every update names a cell of the table.
pub open spec fn updates_in_range(t: Seq<Seq<Seq<char>>>, ups: Seq<(int, int, Seq<char>)>) -> bool {
    forall|k: int|
        0 <= k < ups.len() ==> 0 <= (#[trigger] ups[k]).0 < t.len() && 0 <= ups[k].1 < t[ups[k].0].len()
}

/// Putting translated cells back never changes the table's shape; a cell
/// that no update names keeps its text, and the last update of a cell wins.
pub proof fn cell_updates_keep_shape(t: Seq<Seq<Seq<char>>>, ups: Seq<(int, int, Seq<char>)>)
    requires
        updates_in_range(t, ups),
    ensures
        with_updates(t, ups).len() == t.len(),
        forall|r: int| 0 <= r < t.len() ==> (#[trigger] with_updates(t, ups)[r]).len() == t[r].len(),
        forall|r: int, c: int|
            0 <= r < t.len() && 0 <= c < t[r].len() && (forall|k: int|
                0 <= k < ups.len() ==> !((#[trigger] ups[k]).0 == r && ups[k].1 == c)) ==> with_updates(
                t,
                ups,
            )[r][c] == t[r][c],
        ups.len() > 0 ==> with_updates(t, ups)[ups.last().0][ups.last().1] == ups.last().2,
    decreases ups.len(),
{
    if ups.len() > 0 {
        let rest = ups.drop_last();
        assert forall|k: int| 0 <= k < rest.len() implies 0 <= (#[trigger] rest[k]).0 < t.len() && 0
            <= rest[k].1 < t[rest[k].0].len() by {
            assert(rest[k] == ups[k]);
        }
        cell_updates_keep_shape(t, rest);
        let w = with_updates(t, rest);
        let u = ups.last();
        assert(ups[ups.len() - 1] == u);
        assert forall|r: int, c: int|
            0 <= r < t.len() && 0 <= c < t[r].len() && (forall|k: int|
                0 <= k < ups.len() ==> !((#[trigger] ups[k]).0 == r && ups[k].1 == c)) implies with_updates(
                t,
                ups,
            )[r][c] == t[r][c] by {
            assert forall|k: int| 0 <= k < rest.len() implies !((#[trigger] rest[k]).0 == r && rest[k].1
                == c) by {
                assert(rest[k] == ups[k]);
            }
            assert(!(ups[ups.len() - 1].0 == r && ups[ups.len() - 1].1 == c));
        }
    }
}

proof fn lemma_row_jobs(row: Seq<Seq<char>>, r: int, k: int)
    requires
        0 <= k <= row.len(),
    ensures
        forall|j: int|
            0 <= j < row_jobs(row, r, k).len() ==> {
                let e = #[trigger] row_jobs(row, r, k)[j];
                e.0 == r && 0 <= e.1 < k && e.2 == row[e.1] && trim(e.2).len() > 0
            },
        forall|c: int| 0 <= c < k && trim(row[c]).len() > 0 ==> #[trigger] row_jobs(row, r, k).contains((r, c, row[c])),
    decreases k,
{
    if k > 0 {
        lemma_row_jobs(row, r, k - 1);
        let prev = row_jobs(row, r, k - 1);
        let cur = row_jobs(row, r, k);
        assert forall|j: int| 0 <= j < cur.len() implies {
            let e = #[trigger] cur[j];
            e.0 == r && 0 <= e.1 < k && e.2 == row[e.1] && trim(e.2).len() > 0
        } by {
            if j < prev.len() {
                assert(cur[j] == prev[j]);
            }
        }
        assert forall|c: int| 0 <= c < k && trim(row[c]).len() > 0 implies #[trigger] cur.contains((r, c, row[c])) by {
            if c < k - 1 {
                assert(prev.contains((r, c, row[c])));
                let j = choose|j: int| 0 <= j < prev.len() && prev[j] == (r, c, row[c]);
                assert(cur[j] == prev[j]);
            } else {
                assert(cur[prev.len() as int] == (r, c, row[c]));
            }
        }
    }
}

/// The cells sent for translation are exactly the cells that are not blank,
/// each with its own position and text.
pub proof fn jobs_are_the_nonblank_cells(t: Seq<Seq<Seq<char>>>, k: int)
    requires
        0 <= k <= t.len(),
    ensures
        forall|j: int|
            0 <= j < table_jobs(t, k).len() ==> {
                let e = #[trigger] table_jobs(t, k)[j];
                0 <= e.0 < k && 0 <= e.1 < t[e.0].len() && e.2 == t[e.0][e.1] && trim(e.2).len() > 0
            },
        forall|r: int, c: int|
            0 <= r < k && 0 <= c < t[r].len() && trim(t[r][c]).len() > 0 ==> #[trigger] table_jobs(
                t,
                k,
            ).contains((r, c, t[r][c])),
    decreases k,
{
    if k > 0 {
        jobs_are_the_nonblank_cells(t, k - 1);
        let prev = table_jobs(t, k - 1);
        let row = row_jobs(t[k - 1], k - 1, t[k - 1].len() as int);
        lemma_row_jobs(t[k - 1], k - 1, t[k - 1].len() as int);
        let cur = table_jobs(t, k);
        assert(cur == prev + row);
        assert forall|j: int| 0 <= j < cur.len() implies {
            let e = #[trigger] cur[j];
            0 <= e.0 < k && 0 <= e.1 < t[e.0].len() && e.2 == t[e.0][e.1] && trim(e.2).len() > 0
        } by {
            if j < prev.len() {
                assert(cur[j] == prev[j]);
            } else {
                assert(cur[j] == row[j - prev.len()]);
            }
        }
        assert forall|r: int, c: int|
            0 <= r < k && 0 <= c < t[r].len() && trim(t[r][c]).len() > 0 implies #[trigger] cur.contains(
            (r, c, t[r][c]),
        ) by {
            if r < k - 1 {
                assert(prev.contains((r, c, t[r][c])));
                let j = choose|j: int| 0 <= j < prev.len() && prev[j] == (r, c, t[r][c]);
                assert(cur[j] == prev[j]);
            } else {
                assert(row.contains((r, c, t[r][c])));
                let j = choose|j: int| 0 <= j < row.len() && row[j] == (r, c, t[r][c]);
                assert(cur[prev.len() + j] == row[j]);
            }
        }
    }
}

} // verus!
