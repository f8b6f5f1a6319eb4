//! Turning a comparison report into text: an aligned table to read, or a
//! JSON document to keep.

use vstd::prelude::*;
use vstd::string::StringExecFns;
use vstd::string::StrSliceExecFns;
use crate::runner::{AggregateStat, ComparisonReport, Summary};
use crate::text::{
    append_decimal,
    append_fixed,
    append_integer,
    append_json_string,
    append_padded,
    decimal,
    decimal_text,
    fixed_decimal,
    integer,
    json_string,
    padded,
};
use crate::workload::WorkloadParams;

verus! {

/// The form of a formatted report.
#[derive(Clone, Copy, Debug, PartialEq, Eq, Structural)]
pub enum ReportStyle {
    /// An aligned table, one line per adapter under a line of headings.
    Human,
    /// One JSON object that holds the workload parameters and the results.
    Json,
}

/// Number of columns of the table.
pub const COLUMNS: usize = 8;

/// The mean times of the entries, in the order of the report.
pub open spec fn means_of(stats: Seq<AggregateStat>) -> Seq<u64> {
    Seq::new(stats.len(), |i: int| stats[i].summary.mean)
}

/// `order` with `idx` put behind the last entry whose mean does not exceed
/// that of `idx`.
pub open spec fn inserted(order: Seq<usize>, means: Seq<u64>, idx: usize) -> Seq<usize>
    decreases order.len(),
{
    if order.len() == 0 || means[order.last() as int] <= means[idx as int] {
        order.push(idx)
    } else {
        inserted(order.drop_last(), means, idx).push(order.last())
    }
}

/// The first `n` positions, ordered by ascending mean; positions of equal
/// mean keep the order in which they were supplied.
pub open spec fn order_by_mean(means: Seq<u64>, n: nat) -> Seq<usize>
    decreases n,
{
    if n == 0 {
        Seq::empty()
    } else {
        inserted(order_by_mean(means, (n - 1) as nat), means, (n - 1) as usize)
    }
}

/// The order in which entries are presented: as supplied, or by mean.
pub open spec fn presentation_order(means: Seq<u64>, by_mean: bool) -> Seq<usize> {
    if by_mean {
        order_by_mean(means, means.len())
    } else {
        Seq::new(means.len(), |i: int| i as usize)
    }
}

/// Whether position `a` stands before position `b` when ordered by mean.
pub open spec fn precedes(means: Seq<u64>, a: usize, b: usize) -> bool {
    means[a as int] < means[b as int] || (means[a as int] == means[b as int] && a < b)
}

/// Whether `order` holds positions below `n` only, each before every
/// later one by mean.
pub open spec fn is_ascending(order: Seq<usize>, means: Seq<u64>, n: nat) -> bool {
    &&& forall|a: int| 0 <= a < order.len() ==> (#[trigger] order[a]) < n
    &&& forall|a: int, b: int|
        0 <= a < b < order.len() ==> precedes(means, #[trigger] order[a], #[trigger] order[b])
}

/// Putting a position that is above all those present into an ascending
/// order leaves it ascending, and one longer.
proof fn lemma_inserted_ascending(order: Seq<usize>, means: Seq<u64>, idx: usize)
    requires
        is_ascending(order, means, idx as nat),
        idx < usize::MAX,
    ensures
        is_ascending(inserted(order, means, idx), means, (idx + 1) as nat),
        inserted(order, means, idx).len() == order.len() + 1,
        forall|a: int|
            0 <= a < order.len() + 1 ==> (#[trigger] inserted(order, means, idx)[a]) == idx
                || order.contains(inserted(order, means, idx)[a]),
    decreases order.len(),
{
    let result = inserted(order, means, idx);
    if order.len() == 0 || means[order.last() as int] <= means[idx as int] {
        assert forall|a: int, b: int| 0 <= a < b < result.len() implies precedes(
            means,
            #[trigger] result[a],
            #[trigger] result[b],
        ) by {
            if b == order.len() {
                assert(result[a] == order[a]);
                if a < order.len() - 1 {
                    assert(precedes(means, order[a], order[order.len() - 1]));
                }
            } else {
                assert(result[a] == order[a]);
                assert(result[b] == order[b]);
            }
        }
        assert forall|a: int| 0 <= a < order.len() + 1 implies (#[trigger] result[a]) == idx
            || order.contains(result[a]) by {
            if a < order.len() {
                assert(result[a] == order[a]);
            }
        }
    } else {
        let front = order.drop_last();
        let last = order.last();
        assert(is_ascending(front, means, idx as nat)) by {
            assert forall|a: int| 0 <= a < front.len() implies (#[trigger] front[a]) < idx by {
                assert(front[a] == order[a]);
            }
            assert forall|a: int, b: int| 0 <= a < b < front.len() implies precedes(
                means,
                #[trigger] front[a],
                #[trigger] front[b],
            ) by {
                assert(front[a] == order[a]);
                assert(front[b] == order[b]);
            }
        }
        lemma_inserted_ascending(front, means, idx);
        let inner = inserted(front, means, idx);
        assert(result == inner.push(last));
        assert forall|a: int, b: int| 0 <= a < b < result.len() implies precedes(
            means,
            #[trigger] result[a],
            #[trigger] result[b],
        ) by {
            if b == inner.len() {
                assert(result[a] == inner[a]);
                if inner[a] == idx {
                } else {
                    assert(front.contains(inner[a]));
                    let w = choose|w: int| 0 <= w < front.len() && front[w] == inner[a];
                    assert(order[w] == front[w]);
                    assert(precedes(means, order[w], order[order.len() - 1]));
                }
            } else {
                assert(result[a] == inner[a]);
                assert(result[b] == inner[b]);
            }
        }
        assert forall|a: int| 0 <= a < order.len() + 1 implies (#[trigger] result[a]) == idx
            || order.contains(result[a]) by {
            if a < inner.len() {
                assert(result[a] == inner[a]);
                if inner[a] != idx {
                    let w = choose|w: int| 0 <= w < front.len() && front[w] == inner[a];
                    assert(order[w] == front[w]);
                }
            } else {
                assert(result[a] == order[order.len() - 1]);
            }
        }
        assert forall|a: int| 0 <= a < result.len() implies (#[trigger] result[a]) < idx + 1 by {
            if a < inner.len() {
                assert(result[a] == inner[a]);
            } else {
                assert(result[a] == order[order.len() - 1]);
            }
        }
    }
}

/// Ordering by mean gives every position once, by ascending mean, and
/// positions of equal mean in the order in which they were supplied.
pub proof fn lemma_order_by_mean(means: Seq<u64>, n: nat)
    requires
        n <= usize::MAX,
    ensures
        order_by_mean(means, n).len() == n,
        is_ascending(order_by_mean(means, n), means, n),
    decreases n,
{
    if n > 0 {
        lemma_order_by_mean(means, (n - 1) as nat);
        lemma_inserted_ascending(order_by_mean(means, (n - 1) as nat), means, (n - 1) as usize);
    }
}

/// Where the entries from `at` on all have a greater mean than `idx` and
/// the entry before `at` has not, `idx` is put at `at`.
proof fn lemma_inserted_at(order: Seq<usize>, means: Seq<u64>, idx: usize, at: int)
    requires
        0 <= at <= order.len(),
        forall|q: int| at <= q < order.len() ==> means[(#[trigger] order[q]) as int] > means[idx as int],
        at > 0 ==> means[order[at - 1] as int] <= means[idx as int],
    ensures
        inserted(order, means, idx) == order.insert(at, idx),
    decreases order.len() - at,
{
    if at == order.len() {
        assert(order.push(idx) =~= order.insert(at, idx));
        if order.len() > 0 {
            assert(order.last() == order[at - 1]);
        }
    } else {
        let front = order.drop_last();
        assert(order.last() == order[order.len() - 1]);
        assert forall|q: int| at <= q < front.len() implies means[(#[trigger] front[q]) as int]
            > means[idx as int] by {
            assert(front[q] == order[q]);
        }
        if at > 0 {
            assert(front[at - 1] == order[at - 1]);
        }
        lemma_inserted_at(front, means, idx, at);
        assert(front.insert(at, idx).push(order.last()) =~= order.insert(at, idx));
    }
}

/// Computes [`presentation_order`] for the entries of a report.
pub fn order_of(stats: &Vec<AggregateStat>, by_mean: bool) -> (order: Vec<usize>)
    ensures
        order@ == presentation_order(means_of(stats@), by_mean),
        order@.len() == stats@.len(),
        forall|k: int| 0 <= k < order@.len() ==> (#[trigger] order@[k]) < stats@.len(),
{
    let ghost means = means_of(stats@);
    let mut order: Vec<usize> = Vec::new();
    let mut i: usize = 0;
    while i < stats.len()
        invariant
            i <= stats@.len(),
            means == means_of(stats@),
            order@.len() == i,
            forall|k: int| 0 <= k < order@.len() ==> (#[trigger] order@[k]) < i,
            by_mean ==> order@ == order_by_mean(means, i as nat),
            !by_mean ==> order@ == Seq::new(i as nat, |k: int| k as usize),
        decreases stats@.len() - i,
    {
        let mut at: usize = order.len();
        if by_mean {
            let target: u64 = stats[i].summary.mean;
            while at > 0 && stats[order[at - 1]].summary.mean > target
                invariant
                    at <= order@.len(),
                    i < stats@.len(),
                    means == means_of(stats@),
                    target == means[i as int],
                    forall|k: int| 0 <= k < order@.len() ==> (#[trigger] order@[k]) < i,
                    forall|q: int|
                        at <= q < order@.len() ==> means[(#[trigger] order@[q]) as int] > target,
                decreases at,
            {
                at = at - 1;
            }
            proof {
                lemma_inserted_at(order@, means, i, at as int);
            }
        }
        let ghost before = order@;
        order.insert(at, i);
        proof {
            if !by_mean {
                assert(order@ =~= Seq::new((i + 1) as nat, |k: int| k as usize));
            }
            assert forall|k: int| 0 <= k < order@.len() implies (#[trigger] order@[k]) < i + 1 by {
                if k < at {
                    assert(order@[k] == before[k]);
                } else if k > at {
                    assert(order@[k] == before[k - 1]);
                }
            }
        }
        i = i + 1;
    }
    order
}

/// How an adapter fared, in a word.
pub open spec fn status(summary: Summary) -> Seq<char> {
    if summary.trial_count == 0 && summary.failure_count > 0 {
        "failed"@
    } else if summary.inconsistent {
        "inconsistent"@
    } else {
        "ok"@
    }
}

/// The heading of column `c`.
pub open spec fn heading(c: int) -> Seq<char> {
    if c == 0 {
        "adapter"@
    } else if c == 1 {
        "trials"@
    } else if c == 2 {
        "failures"@
    } else if c == 3 {
        "min_ns"@
    } else if c == 4 {
        "mean_ns"@
    } else if c == 5 {
        "p95_ns"@
    } else if c == 6 {
        "bytes"@
    } else {
        "status"@
    }
}

/// What column `c` shows of an entry.
pub open spec fn cell(stat: AggregateStat, c: int) -> Seq<char> {
    if c == 0 {
        stat.adapter_name@
    } else if c == 1 {
        decimal(stat.summary.trial_count as nat)
    } else if c == 2 {
        decimal(stat.summary.failure_count as nat)
    } else if c == 3 {
        decimal(stat.summary.min as nat)
    } else if c == 4 {
        decimal(stat.summary.mean as nat)
    } else if c == 5 {
        decimal(stat.summary.p95 as nat)
    } else if c == 6 {
        decimal(stat.summary.output_byte_length as nat)
    } else {
        status(stat.summary)
    }
}

/// The width of column `c`: that of its widest text, heading included.
pub open spec fn column_width(stats: Seq<AggregateStat>, c: int) -> nat
    decreases stats.len(),
{
    if stats.len() == 0 {
        heading(c).len()
    } else {
        let above = column_width(stats.drop_last(), c);
        let here = cell(stats.last(), c).len();
        if here > above {
            here
        } else {
            above
        }
    }
}

/// The first `k` columns of a line: every column but the last is padded
/// to its width and followed by two spaces.
pub open spec fn line_start(cells: Seq<Seq<char>>, widths: Seq<usize>, k: nat) -> Seq<char>
    decreases k,
{
    if k == 0 {
        Seq::empty()
    } else {
        let before = line_start(cells, widths, (k - 1) as nat);
        if k == cells.len() {
            before + cells[k - 1]
        } else {
            before + padded(cells[k - 1], widths[k - 1] as nat) + "  "@
        }
    }
}

/// One line of the table, with its line break.
pub open spec fn line(cells: Seq<Seq<char>>, widths: Seq<usize>) -> Seq<char> {
    line_start(cells, widths, cells.len()) + "\n"@
}

/// The texts of a line of headings.
pub open spec fn heading_cells() -> Seq<Seq<char>> {
    Seq::new(COLUMNS as nat, |c: int| heading(c))
}

/// The texts of the line of an entry.
pub open spec fn stat_cells(stat: AggregateStat) -> Seq<Seq<char>> {
    Seq::new(COLUMNS as nat, |c: int| cell(stat, c))
}

/// The lines of the first `k` entries in presentation order.
pub open spec fn table_rows(
    stats: Seq<AggregateStat>,
    order: Seq<usize>,
    widths: Seq<usize>,
    k: nat,
) -> Seq<char>
    decreases k,
{
    if k == 0 {
        Seq::empty()
    } else {
        table_rows(stats, order, widths, (k - 1) as nat) + line(
            stat_cells(stats[order[k - 1] as int]),
            widths,
        )
    }
}

/// The widths of all columns.
pub open spec fn column_widths(stats: Seq<AggregateStat>) -> Seq<usize> {
    Seq::new(COLUMNS as nat, |c: int| column_width(stats, c) as usize)
}

/// The table: a line of headings, then one line per entry.
pub open spec fn table(stats: Seq<AggregateStat>, order: Seq<usize>) -> Seq<char> {
    let widths = column_widths(stats);
    line(heading_cells(), widths) + table_rows(stats, order, widths, order.len())
}

/// The views of texts.
pub open spec fn texts(cells: Seq<String>) -> Seq<Seq<char>> {
    Seq::new(cells.len(), |c: int| cells[c]@)
}

/// The headings, as texts.
fn headings() -> (cells: Vec<String>)
    ensures
        cells@.len() == COLUMNS,
        texts(cells@) == heading_cells(),
{
    let mut cells: Vec<String> = Vec::new();
    cells.push(String::from_str("adapter"));
    cells.push(String::from_str("trials"));
    cells.push(String::from_str("failures"));
    cells.push(String::from_str("min_ns"));
    cells.push(String::from_str("mean_ns"));
    cells.push(String::from_str("p95_ns"));
    cells.push(String::from_str("bytes"));
    cells.push(String::from_str("status"));
    assert(texts(cells@) =~= heading_cells());
    cells
}

/// The line of an entry, as texts.
fn cells_of(stat: &AggregateStat) -> (cells: Vec<String>)
    ensures
        cells@.len() == COLUMNS,
        texts(cells@) == stat_cells(*stat),
{
    let summary = &stat.summary;
    let mut cells: Vec<String> = Vec::new();
    cells.push(stat.adapter_name.clone());
    cells.push(decimal_text(summary.trial_count as u64));
    cells.push(decimal_text(summary.failure_count as u64));
    cells.push(decimal_text(summary.min));
    cells.push(decimal_text(summary.mean));
    cells.push(decimal_text(summary.p95));
    cells.push(decimal_text(summary.output_byte_length as u64));
    let word = if summary.trial_count == 0 && summary.failure_count > 0 {
        "failed"
    } else if summary.inconsistent {
        "inconsistent"
    } else {
        "ok"
    };
    cells.push(String::from_str(word));
    assert(texts(cells@) =~= stat_cells(*stat));
    cells
}

/// Computes [`column_widths`].
fn widths_of(stats: &Vec<AggregateStat>) -> (widths: Vec<usize>)
    ensures
        widths@.len() == COLUMNS,
        widths@ == column_widths(stats@),
        forall|c: int| 0 <= c < COLUMNS ==> (#[trigger] widths@[c]) == column_width(stats@, c),
{
    let top = headings();
    let mut widths: Vec<usize> = Vec::new();
    let mut c: usize = 0;
    while c < COLUMNS
        invariant
            c <= COLUMNS,
            top@.len() == COLUMNS,
            texts(top@) == heading_cells(),
            widths@.len() == c,
            forall|d: int| 0 <= d < c ==> (#[trigger] widths@[d]) == heading(d).len(),
        decreases COLUMNS - c,
    {
        assert(texts(top@)[c as int] == top@[c as int]@);
        assert(heading_cells()[c as int] == heading(c as int));
        widths.push(top[c].as_str().unicode_len());
        c = c + 1;
    }
    let mut i: usize = 0;
    assert(stats@.subrange(0, 0) =~= Seq::<AggregateStat>::empty());
    while i < stats.len()
        invariant
            i <= stats@.len(),
            widths@.len() == COLUMNS,
            forall|d: int|
                0 <= d < COLUMNS ==> (#[trigger] widths@[d]) == column_width(
                    stats@.subrange(0, i as int),
                    d,
                ),
        decreases stats@.len() - i,
    {
        let cells = cells_of(&stats[i]);
        let ghost next = stats@.subrange(0, i + 1);
        proof {
            assert(next.drop_last() =~= stats@.subrange(0, i as int));
            assert(next.last() == stats@[i as int]);
        }
        let mut c: usize = 0;
        while c < COLUMNS
            invariant
                c <= COLUMNS,
                i < stats@.len(),
                widths@.len() == COLUMNS,
                next == stats@.subrange(0, i + 1),
                next.drop_last() == stats@.subrange(0, i as int),
                next.last() == stats@[i as int],
                cells@.len() == COLUMNS,
                texts(cells@) == stat_cells(stats@[i as int]),
                forall|d: int| 0 <= d < c ==> (#[trigger] widths@[d]) == column_width(next, d),
                forall|d: int|
                    c <= d < COLUMNS ==> (#[trigger] widths@[d]) == column_width(
                        stats@.subrange(0, i as int),
                        d,
                    ),
            decreases COLUMNS - c,
        {
            assert(texts(cells@)[c as int] == cells@[c as int]@);
            assert(stat_cells(stats@[i as int])[c as int] == cell(stats@[i as int], c as int));
            let here: usize = cells[c].as_str().unicode_len();
            if here > widths[c] {
                widths.set(c, here);
            }
            c = c + 1;
        }
        i = i + 1;
    }
    assert(stats@.subrange(0, stats@.len() as int) =~= stats@);
    assert(widths@ =~= column_widths(stats@));
    widths
}

/// Appends one line of the table.
fn append_line(out: &mut String, cells: &Vec<String>, widths: &Vec<usize>)
    requires
        cells@.len() == widths@.len(),
    ensures
        final(out)@ == old(out)@ + line(texts(cells@), widths@),
{
    let mut k: usize = 0;
    while k < cells.len()
        invariant
            k <= cells@.len(),
            cells@.len() == widths@.len(),
            out@ == old(out)@ + line_start(texts(cells@), widths@, k as nat),
        decreases cells@.len() - k,
    {
        let ghost before = out@;
        assert(texts(cells@)[k as int] == cells@[k as int]@);
        if k + 1 == cells.len() {
            out.append(cells[k].as_str());
            assert(out@ =~= old(out)@ + line_start(texts(cells@), widths@, (k + 1) as nat));
        } else {
            append_padded(out, cells[k].as_str(), widths[k]);
            out.append("  ");
            assert(out@ =~= old(out)@ + line_start(texts(cells@), widths@, (k + 1) as nat));
        }
        k = k + 1;
    }
    out.append("\n");
    assert(out@ =~= old(out)@ + line(texts(cells@), widths@));
}

/// Appends the table.
fn append_table(out: &mut String, stats: &Vec<AggregateStat>, order: &Vec<usize>)
    requires
        forall|k: int| 0 <= k < order@.len() ==> (#[trigger] order@[k]) < stats@.len(),
    ensures
        final(out)@ == old(out)@ + table(stats@, order@),
{
    let widths = widths_of(stats);
    let top = headings();
    append_line(out, &top, &widths);
    let ghost started = out@;
    let mut k: usize = 0;
    while k < order.len()
        invariant
            k <= order@.len(),
            widths@.len() == COLUMNS,
            widths@ == column_widths(stats@),
            forall|j: int| 0 <= j < order@.len() ==> (#[trigger] order@[j]) < stats@.len(),
            out@ == started + table_rows(stats@, order@, widths@, k as nat),
        decreases order@.len() - k,
    {
        let cells = cells_of(&stats[order[k]]);
        let ghost before = out@;
        append_line(out, &cells, &widths);
        assert(out@ =~= started + table_rows(stats@, order@, widths@, (k + 1) as nat));
        k = k + 1;
    }
    assert(out@ =~= old(out)@ + table(stats@, order@));
}

/// The JSON object of an entry.
pub open spec fn stat_json(stat: AggregateStat) -> Seq<char> {
    "{\"adapter\":"@ + json_string(stat.adapter_name@) + ",\"trials\":"@ + decimal(
        stat.summary.trial_count as nat,
    ) + ",\"failures\":"@ + decimal(stat.summary.failure_count as nat) + ",\"min_nanos\":"@
        + decimal(stat.summary.min as nat) + ",\"mean_nanos\":"@ + decimal(
        stat.summary.mean as nat,
    ) + ",\"p95_nanos\":"@ + decimal(stat.summary.p95 as nat) + ",\"output_bytes\":"@ + decimal(
        stat.summary.output_byte_length as nat,
    ) + ",\"consistent\":"@ + (if stat.summary.inconsistent {
        "false"@
    } else {
        "true"@
    }) + ",\"status\":"@ + json_string(status(stat.summary)) + "}"@
}

/// The JSON objects of the first `k` entries in presentation order, with
/// commas between them.
pub open spec fn results_json(stats: Seq<AggregateStat>, order: Seq<usize>, k: nat) -> Seq<char>
    decreases k,
{
    if k == 0 {
        Seq::empty()
    } else if k == 1 {
        stat_json(stats[order[0] as int])
    } else {
        results_json(stats, order, (k - 1) as nat) + ","@ + stat_json(stats[order[k - 1] as int])
    }
}

/// The JSON object of the workload parameters.
pub open spec fn params_json(params: WorkloadParams) -> Seq<char> {
    match params {
        WorkloadParams::Spiral(p) => "{\"kind\":\"spiral\",\"canvas_width\":"@ + fixed_decimal(
            p.canvas_width as int,
        ) + ",\"canvas_height\":"@ + fixed_decimal(p.canvas_height as int) + ",\"cell_size\":"@
            + fixed_decimal(p.cell_size as int) + ",\"angle_step\":"@ + fixed_decimal(
            p.angle_step as int,
        ) + ",\"radius_step_factor\":"@ + fixed_decimal(p.radius_step_factor as int) + "}"@,
        WorkloadParams::List { rows, fill_value } => "{\"kind\":\"list\",\"rows\":"@ + integer(
            rows as int,
        ) + ",\"fill\":"@ + decimal(fill_value as nat) + "}"@,
    }
}

/// The JSON document of a report.
pub open spec fn document(report: ComparisonReport, order: Seq<usize>) -> Seq<char> {
    "{\"workload\":"@ + params_json(report.params) + ",\"results\":["@ + results_json(
        report.stats@,
        order,
        order.len(),
    ) + "]}"@
}

/// Appends the JSON object of an entry.
fn append_stat_json(out: &mut String, stat: &AggregateStat)
    ensures
        final(out)@ == old(out)@ + stat_json(*stat),
{
    let summary = &stat.summary;
    out.append("{\"adapter\":");
    let ghost mut done: Seq<char> = "{\"adapter\":"@;
    assert(out@ =~= old(out)@ + done);
    append_json_string(out, stat.adapter_name.as_str());
    proof {
        done = done + json_string(stat.adapter_name@);
        assert(out@ =~= old(out)@ + done);
    }
    append_number_field(out, ",\"trials\":", summary.trial_count as u64);
    proof {
        done = done + ",\"trials\":"@ + decimal(summary.trial_count as nat);
        assert(out@ =~= old(out)@ + done);
    }
    append_number_field(out, ",\"failures\":", summary.failure_count as u64);
    proof {
        done = done + ",\"failures\":"@ + decimal(summary.failure_count as nat);
        assert(out@ =~= old(out)@ + done);
    }
    append_number_field(out, ",\"min_nanos\":", summary.min);
    proof {
        done = done + ",\"min_nanos\":"@ + decimal(summary.min as nat);
        assert(out@ =~= old(out)@ + done);
    }
    append_number_field(out, ",\"mean_nanos\":", summary.mean);
    proof {
        done = done + ",\"mean_nanos\":"@ + decimal(summary.mean as nat);
        assert(out@ =~= old(out)@ + done);
    }
    append_number_field(out, ",\"p95_nanos\":", summary.p95);
    proof {
        done = done + ",\"p95_nanos\":"@ + decimal(summary.p95 as nat);
        assert(out@ =~= old(out)@ + done);
    }
    append_number_field(out, ",\"output_bytes\":", summary.output_byte_length as u64);
    proof {
        done = done + ",\"output_bytes\":"@ + decimal(summary.output_byte_length as nat);
        assert(out@ =~= old(out)@ + done);
    }
    out.append(",\"consistent\":");
    let flag = if summary.inconsistent {
        "false"
    } else {
        "true"
    };
    out.append(flag);
    proof {
        done = done + ",\"consistent\":"@ + flag@;
        assert(out@ =~= old(out)@ + done);
    }
    out.append(",\"status\":");
    let word = if summary.trial_count == 0 && summary.failure_count > 0 {
        "failed"
    } else if summary.inconsistent {
        "inconsistent"
    } else {
        "ok"
    };
    append_json_string(out, word);
    out.append("}");
    proof {
        done = done + ",\"status\":"@ + json_string(word@) + "}"@;
        assert(out@ =~= old(out)@ + done);
        assert(done == stat_json(*stat));
    }
}

/// Appends a key and a number in decimal.
fn append_number_field(out: &mut String, key: &str, n: u64)
    ensures
        final(out)@ == old(out)@ + key@ + decimal(n as nat),
{
    out.append(key);
    append_decimal(out, n);
}

/// Appends the JSON object of the workload parameters.
fn append_params_json(out: &mut String, params: &WorkloadParams)
    ensures
        final(out)@ == old(out)@ + params_json(*params),
{
    match params {
        WorkloadParams::Spiral(p) => {
            out.append("{\"kind\":\"spiral\",\"canvas_width\":");
            append_fixed(out, p.canvas_width);
            out.append(",\"canvas_height\":");
            append_fixed(out, p.canvas_height);
            out.append(",\"cell_size\":");
            append_fixed(out, p.cell_size);
            out.append(",\"angle_step\":");
            append_fixed(out, p.angle_step);
            out.append(",\"radius_step_factor\":");
            append_fixed(out, p.radius_step_factor);
            out.append("}");
        },
        WorkloadParams::List { rows, fill_value } => {
            out.append("{\"kind\":\"list\",\"rows\":");
            append_integer(out, *rows);
            out.append(",\"fill\":");
            append_decimal(out, *fill_value as u64);
            out.append("}");
        },
    }
    assert(out@ =~= old(out)@ + params_json(*params));
}

/// Appends the JSON document of a report.
fn append_document(out: &mut String, report: &ComparisonReport, order: &Vec<usize>)
    requires
        forall|k: int| 0 <= k < order@.len() ==> (#[trigger] order@[k]) < report.stats@.len(),
    ensures
        final(out)@ == old(out)@ + document(*report, order@),
{
    out.append("{\"workload\":");
    append_params_json(out, &report.params);
    out.append(",\"results\":[");
    let ghost started = out@;
    let mut k: usize = 0;
    while k < order.len()
        invariant
            k <= order@.len(),
            forall|j: int| 0 <= j < order@.len() ==> (#[trigger] order@[j]) < report.stats@.len(),
            out@ == started + results_json(report.stats@, order@, k as nat),
        decreases order@.len() - k,
    {
        if k > 0 {
            out.append(",");
        }
        append_stat_json(out, &report.stats[order[k]]);
        assert(out@ =~= started + results_json(report.stats@, order@, (k + 1) as nat));
        k = k + 1;
    }
    out.append("]}");
    assert(out@ =~= old(out)@ + document(*report, order@));
}

/// The text of a report in a style and an order.
pub open spec fn formatted(report: ComparisonReport, style: ReportStyle, by_mean: bool) -> Seq<
    char,
> {
    let order = presentation_order(means_of(report.stats@), by_mean);
    match style {
        ReportStyle::Human => table(report.stats@, order),
        ReportStyle::Json => document(report, order),
    }
}

/// Formats a report.
///
/// Entries stand in the order of the report, or, with `sort_by_mean`, by
/// ascending mean time, entries of equal mean in the order of the report.
pub fn format(report: &ComparisonReport, style: ReportStyle, sort_by_mean: bool) -> (text: String)
    ensures
        text@ == formatted(*report, style, sort_by_mean),
{
    let order = order_of(&report.stats, sort_by_mean);
    let mut out = String::new();
    match style {
        ReportStyle::Human => {
            append_table(&mut out, &report.stats, &order);
        },
        ReportStyle::Json => {
            append_document(&mut out, report, &order);
        },
    }
    assert(out@ =~= formatted(*report, style, sort_by_mean));
    out
}

} // verus!
