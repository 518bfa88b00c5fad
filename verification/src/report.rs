//! The report: entries sorted by megabyte value ascending, one rendered
//! line per entry, a blank separator, a mean/standard-deviation summary
//! line, and a total line.

use vstd::prelude::*;
use vstd::seq_lib::group_to_multiset_ensures;
use vstd::string::StringExecFns;

use crate::model::AggregateEntry;
use crate::model::ProcessSample;
use crate::model::any_qualifying;
use crate::model::has_qualifying;
use crate::model::is_aggregation_of;
use crate::model::lemma_sum_bytes_for_le_total;
use crate::model::nonneg_bytes;
use crate::model::total_bytes;
use crate::model::views_of_entries;
use crate::model::views_of_samples;
use crate::aggregate::aggregate;
use crate::stats::checked_sum;
use crate::stats::compute_statistics;
use crate::stats::ints_of;
use crate::stats::mean_of;
use crate::stats::std_dev_of;
use crate::stats::sum_of;
use crate::stats::sum_sq_diffs;
use crate::text::format_mb;
use crate::text::formatted_mb;
use crate::text::dec_rep;
use crate::text::i64_to_string;

use itertools::Itertools;

verus! {

/// Why no report could be produced.
#[derive(PartialEq, Eq, Structural, Clone, Copy, Debug)]
pub enum ReportError {
    /// No process qualified: every sample had zero resident bytes, so mean
    /// and standard deviation are undefined.
    EmptyPopulation,
    /// An intermediate statistics sum did not fit in a 64-bit integer.
    StatisticsOverflow,
}

/// The megabyte values of a sequence of aggregated entries.
pub open spec fn values_of(es: Seq<(Seq<char>, int)>) -> Seq<int> {
    es.map_values(|e: (Seq<char>, int)| e.1)
}

/// The entries are non-decreasing in their megabyte value.
pub open spec fn non_decreasing(es: Seq<(Seq<char>, int)>) -> bool {
    forall|i: int, j: int| 0 <= i <= j < es.len() ==> (#[trigger] es[i]).1 <= (#[trigger] es[j]).1
}

/// `es` aggregates `samples` and is sorted by megabyte value ascending.
pub open spec fn sorted_aggregation_of(
    es: Seq<(Seq<char>, int)>,
    samples: Seq<(Seq<char>, int)>,
) -> bool {
    is_aggregation_of(es, samples) && non_decreasing(es)
}

/// One report row: the command name, a separating ": ", and the rendered
/// value.
pub open spec fn row_text(e: (Seq<char>, int), mean: int, stddev: int) -> Seq<char> {
    e.0 + ": "@ + formatted_mb(e.1, mean, stddev)
}

/// The summary row with the run's mean and standard deviation.
pub open spec fn summary_text(mean: int, stddev: int) -> Seq<char> {
    "Mean: "@ + dec_rep(mean) + " MB std-dev: "@ + dec_rep(stddev)
}

/// The total row with the sum of the printed megabyte values.
pub open spec fn total_text(total: int) -> Seq<char> {
    "Total Memory Used: "@ + dec_rep(total) + " MB"@
}

/// The full report for sorted entries `es`: one row per entry, a blank
/// line, the summary row, and the total row, with mean, standard deviation
/// and total all computed from the same megabyte values the rows show.
pub open spec fn report_lines_of(es: Seq<(Seq<char>, int)>) -> Seq<Seq<char>> {
    let vals = values_of(es);
    let m = mean_of(vals);
    let sd = std_dev_of(vals);
    es.map_values(|e: (Seq<char>, int)| row_text(e, m, sd)) + seq![
        Seq::<char>::empty(),
        summary_text(m, sd),
        total_text(sum_of(vals)),
    ]
}

/// Relies on itertools::Itertools::sorted_by with a comparison on the
/// megabyte field: a stable sort backed by slice::sort_by, so the result
/// holds exactly the input's elements and is non-decreasing in that field.
#[verifier::external_body]
fn sort_by_megabytes(entries: Vec<AggregateEntry>) -> (r: Vec<AggregateEntry>)
    ensures
        views_of_entries(r@).to_multiset() == views_of_entries(entries@).to_multiset(),
        forall|i: int, j: int|
            0 <= i <= j < r@.len() ==> (#[trigger] r@[i]).resident_megabytes <= (
            #[trigger] r@[j]).resident_megabytes,
{
    entries
        .into_iter()
        .sorted_by(|a, b| Ord::cmp(&a.resident_megabytes, &b.resident_megabytes))
        .collect()
}

/// Being an aggregation is preserved under permutation: the clauses speak
/// only of which (name, value) pairs occur.
proof fn lemma_permuted_aggregation(
    ev: Seq<(Seq<char>, int)>,
    rv: Seq<(Seq<char>, int)>,
    sv: Seq<(Seq<char>, int)>,
)
    requires
        rv.to_multiset() == ev.to_multiset(),
        is_aggregation_of(ev, sv),
    ensures
        is_aggregation_of(rv, sv),
        rv.len() == ev.len(),
{
    broadcast use group_to_multiset_ensures;

    assert(rv.len() == rv.to_multiset().len());
    assert(ev.len() == ev.to_multiset().len());
    assert forall|j: int| 0 <= j < rv.len() implies has_qualifying(sv, (#[trigger] rv[j]).0)
        && rv[j].1 == crate::model::sum_bytes_for(sv, rv[j].0) / (
    crate::model::BYTES_PER_MB as int) by {
        assert(rv.contains(rv[j]));
        assert(ev.to_multiset().count(rv[j]) > 0);
        assert(ev.contains(rv[j]));
        let i = choose|i: int| 0 <= i < ev.len() && ev[i] == rv[j];
        assert(ev[i] == rv[j]);
    }
    assert forall|name: Seq<char>| #[trigger] has_qualifying(sv, name) implies exists|j: int|
        0 <= j < rv.len() && (#[trigger] rv[j]).0 == name by {
        let i = choose|i: int| 0 <= i < ev.len() && (#[trigger] ev[i]).0 == name;
        assert(ev.contains(ev[i]));
        assert(rv.to_multiset().count(ev[i]) > 0);
        assert(rv.contains(ev[i]));
        let j = choose|j: int| 0 <= j < rv.len() && rv[j] == ev[i];
        assert(rv[j].0 == name);
    }
    assert(ev.no_duplicates()) by {
        assert forall|i: int, j: int|
            0 <= i < ev.len() && 0 <= j < ev.len() && i != j implies ev[i] != ev[j] by {
            assert(ev[i].0 != ev[j].0);
        }
    }
    ev.lemma_multiset_has_no_duplicates();
    rv.lemma_multiset_has_no_duplicates_conv();
    assert(rv.no_duplicates());
    assert forall|j: int, k: int|
        0 <= j < rv.len() && 0 <= k < rv.len() && j != k implies (#[trigger] rv[j]).0 != (
    #[trigger] rv[k]).0 by {
        if rv[j].0 == rv[k].0 {
            assert(rv[j].1 == rv[k].1);
            assert(rv[j] == rv[k]);
        }
    }
}

/// The megabyte values of the entries, in order.
fn megabyte_values(entries: &Vec<AggregateEntry>) -> (r: Vec<i64>)
    ensures
        r@.len() == entries@.len(),
        forall|i: int| 0 <= i < r@.len() ==> #[trigger] r@[i] == entries@[i].resident_megabytes,
        ints_of(r@) == values_of(views_of_entries(entries@)),
{
    let mut r: Vec<i64> = Vec::new();
    let mut i: usize = 0;
    while i < entries.len()
        invariant
            0 <= i <= entries@.len(),
            r@.len() == i,
            forall|k: int| 0 <= k < i ==> #[trigger] r@[k] == entries@[k].resident_megabytes,
        decreases entries@.len() - i,
    {
        r.push(entries[i].resident_megabytes);
        i = i + 1;
    }
    proof {
        assert(ints_of(r@) =~= values_of(views_of_entries(entries@)));
    }
    r
}

/// One rendered report row for an entry.
fn row_line(e: &AggregateEntry, mean: i64, stddev: i64) -> (r: String)
    requires
        0 <= e.resident_megabytes,
        0 <= mean,
        0 <= stddev,
    ensures
        r@ == row_text(e@, mean as int, stddev as int),
{
    let value = format_mb(e.resident_megabytes, mean, stddev);
    let line = e.command_name.clone().concat(": ").concat(value.as_str());
    proof {
        assert(line@ =~= row_text(e@, mean as int, stddev as int));
    }
    line
}

/// The rendered summary row.
fn summary_line(mean: i64, stddev: i64) -> (r: String)
    requires
        0 <= mean,
        0 <= stddev,
    ensures
        r@ == summary_text(mean as int, stddev as int),
{
    let m = i64_to_string(mean);
    let sd = i64_to_string(stddev);
    let line = "Mean: ".to_owned().concat(m.as_str()).concat(" MB std-dev: ").concat(sd.as_str());
    proof {
        assert(line@ =~= summary_text(mean as int, stddev as int));
    }
    line
}

/// The rendered total row.
fn total_line(total: i64) -> (r: String)
    requires
        0 <= total,
    ensures
        r@ == total_text(total as int),
{
    let t = i64_to_string(total);
    let line = "Total Memory Used: ".to_owned().concat(t.as_str()).concat(" MB");
    proof {
        assert(line@ =~= total_text(total as int));
    }
    line
}

/// Build the whole report from the raw samples: aggregate by command name,
/// sort ascending by megabytes, and render the rows, the blank separator,
/// the summary row and the total row.
///
/// Fails with `EmptyPopulation` exactly when no sample has non-zero
/// resident bytes, and with `StatisticsOverflow` when an intermediate
/// statistics sum over the aggregated values does not fit in 64 bits.
pub fn render_report(samples: &Vec<ProcessSample>) -> (r: Result<Vec<String>, ReportError>)
    requires
        nonneg_bytes(views_of_samples(samples@)),
        total_bytes(views_of_samples(samples@)) <= i64::MAX,
    ensures
        (r == Err::<Vec<String>, ReportError>(ReportError::EmptyPopulation)) <==> !any_qualifying(
            views_of_samples(samples@),
        ),
        r == Err::<Vec<String>, ReportError>(ReportError::StatisticsOverflow) ==> exists|
            es: Seq<(Seq<char>, int)>,
        |
            #[trigger] sorted_aggregation_of(es, views_of_samples(samples@)) && (sum_of(
                values_of(es),
            ) > i64::MAX || sum_sq_diffs(values_of(es), mean_of(values_of(es))) > i64::MAX),
        r matches Ok(lines) ==> exists|es: Seq<(Seq<char>, int)>|
            #[trigger] sorted_aggregation_of(es, views_of_samples(samples@)) && sum_of(
                values_of(es),
            ) <= i64::MAX && sum_sq_diffs(values_of(es), mean_of(values_of(es))) <= i64::MAX
                && lines@.map_values(|l: String| l@) == report_lines_of(es),
{
    let ghost sv = views_of_samples(samples@);
    let entries = aggregate(samples);
    let ghost ev = views_of_entries(entries@);
    if entries.len() == 0 {
        proof {
            if any_qualifying(sv) {
                let i = choose|i: int| 0 <= i < sv.len() && (#[trigger] sv[i]).1 != 0;
                assert(has_qualifying(sv, sv[i].0));
                assert(false);
            }
        }
        return Err(ReportError::EmptyPopulation);
    }
    proof {
        assert(has_qualifying(sv, ev[0].0));
        assert(any_qualifying(sv)) by {
            let i = choose|i: int| 0 <= i < sv.len() && (#[trigger] sv[i]).0 == ev[0].0 && sv[i].1 != 0;
            assert(0 <= i < sv.len() && sv[i].1 != 0);
        }
    }
    let sorted = sort_by_megabytes(entries);
    let ghost rv = views_of_entries(sorted@);
    proof {
        lemma_permuted_aggregation(ev, rv, sv);
        assert(non_decreasing(rv)) by {
            assert(forall|i: int|
                0 <= i < rv.len() ==> (#[trigger] rv[i]).1 == sorted@[i].resident_megabytes as int);
        }
        assert(sorted_aggregation_of(rv, sv));
        assert forall|j: int| 0 <= j < rv.len() implies 0 <= (#[trigger] rv[j]).1 by {
            lemma_sum_bytes_for_le_total(sv, rv[j].0);
        }
    }
    let values = megabyte_values(&sorted);
    let ghost vals = ints_of(values@);
    proof {
        assert(vals == values_of(rv));
        assert forall|i: int| 0 <= i < values@.len() implies 0 <= #[trigger] values@[i] by {
            assert(rv[i].1 == values@[i] as int);
        }
    }
    let total = match checked_sum(&values) {
        Some(t) => t,
        None => {
            return Err(ReportError::StatisticsOverflow);
        },
    };
    let stats = match compute_statistics(&values) {
        Some(st) => st,
        None => {
            return Err(ReportError::StatisticsOverflow);
        },
    };
    let run_mean = stats.mean;
    let run_stddev = stats.standard_deviation;
    let mut lines: Vec<String> = Vec::new();
    let mut i: usize = 0;
    while i < sorted.len()
        invariant
            rv == views_of_entries(sorted@),
            0 <= run_mean as int == mean_of(vals),
            0 <= run_stddev as int == std_dev_of(vals),
            vals == values_of(rv),
            forall|j: int| 0 <= j < rv.len() ==> 0 <= (#[trigger] rv[j]).1,
            0 <= i <= sorted@.len(),
            lines@.len() == i,
            forall|k: int|
                0 <= k < i ==> (#[trigger] lines@[k])@ == row_text(
                    rv[k],
                    run_mean as int,
                    run_stddev as int,
                ),
        decreases sorted@.len() - i,
    {
        proof {
            assert(rv[i as int] == sorted@[i as int]@);
        }
        let line = row_line(&sorted[i], run_mean, run_stddev);
        lines.push(line);
        i = i + 1;
    }
    lines.push(String::new());
    lines.push(summary_line(run_mean, run_stddev));
    lines.push(total_line(total));
    proof {
        let out = lines@.map_values(|l: String| l@);
        assert(out =~= report_lines_of(rv)) by {
            let m = mean_of(vals);
            let sd = std_dev_of(vals);
            let rows = rv.map_values(|e: (Seq<char>, int)| row_text(e, m, sd));
            assert(out.len() == rv.len() + 3);
            assert(report_lines_of(rv).len() == rv.len() + 3);
            assert(forall|k: int|
                0 <= k < rv.len() ==> out[k] == (#[trigger] lines@[k])@);
            assert(forall|k: int|
                0 <= k < rv.len() ==> #[trigger] report_lines_of(rv)[k] == rows[k]);
        }
        assert(sorted_aggregation_of(rv, sv) && sum_of(values_of(rv)) <= i64::MAX
            && sum_sq_diffs(values_of(rv), mean_of(values_of(rv))) <= i64::MAX && out
            == report_lines_of(rv));
    }
    Ok(lines)
}

} // verus!
