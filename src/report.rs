use crate::display::{aligned_timestamps, line_of, line_values, rate_of, rate_values};
use crate::history::{column, History};
use crate::pattern::{correlate, group_view, groups_view, member_view, names_view, PatternGroup, PlotKind};
use crate::registry::{KeyTable, KeyView, LabelView};
use vstd::prelude::*;

verus! {

/// The recorded values of one metric: one value per cycle for a counter or gauge, one
/// quantile summary per cycle for a histogram.
pub enum MetricValues<H> {
    Single(Vec<u64>),
    Quantile(Vec<H>),
}

/// A series ready for display: the timestamps it is aligned with and its displayed points.
pub enum Series<H> {
    Values { x: Vec<u64>, y: Vec<i128> },
    Quantiles { x: Vec<u64>, q: Vec<H> },
}

/// The key that a bare metric name stands for: that name with no labels.
pub open spec fn plain_key(name: Seq<char>) -> KeyView {
    (name, Set::<LabelView>::empty())
}

pub open spec fn names_of(t: Seq<KeyView>) -> Seq<Seq<char>> {
    t.map_values(|k: KeyView| k.0)
}

/// A column never holds more values than there are rows.
proof fn lemma_column_len<T>(rows: Seq<Seq<T>>, i: int)
    ensures
        column(rows, i).len() <= rows.len(),
    decreases rows.len(),
{
    if rows.len() > 0 {
        lemma_column_len(rows.drop_last(), i);
    }
}

/// What collection hands over when it ends: the keys of each kind, in slot order, and the
/// history recorded for those slots.
pub struct Report<H> {
    pub counters: KeyTable,
    pub gauges: KeyTable,
    pub histograms: KeyTable,
    pub history: History<H>,
}

impl<H: Copy> Report<H> {
    pub open spec fn wf(&self) -> bool {
        &&& self.counters.wf()
        &&& self.gauges.wf()
        &&& self.histograms.wf()
        &&& self.history.wf()
    }

    /// The names of all metrics: counters, then gauges, then histograms, each in slot order.
    pub fn metrics(&self) -> (r: Vec<&str>)
        ensures
            r@.map_values(|s: &str| s@) == names_of(self.counters@) + names_of(self.gauges@)
                + names_of(self.histograms@),
    {
        let mut r: Vec<&str> = Vec::new();
        push_names(&mut r, &self.counters);
        push_names(&mut r, &self.gauges);
        push_names(&mut r, &self.histograms);
        r
    }

    /// The values recorded for the metric called `name` (with no labels): a counter's if there
    /// is one, else a gauge's, else a histogram's.
    pub fn get_metric(&self, name: &str) -> (r: Option<MetricValues<H>>)
        requires
            self.wf(),
        ensures
            values_view(r) == self.get_metric_spec(name@),
    {
        let key = crate::registry::MetricKey::from_name(name);
        if let Some(i) = self.counters.find(&key) {
            assert(self.counters@[i as int] == key@);
            Some(MetricValues::Single(self.history.counter_series(i)))
        } else if let Some(i) = self.gauges.find(&key) {
            assert(self.gauges@[i as int] == key@);
            Some(MetricValues::Single(self.history.gauge_series(i)))
        } else if let Some(i) = self.histograms.find(&key) {
            assert(self.histograms@[i as int] == key@);
            Some(MetricValues::Quantile(self.history.histogram_series(i)))
        } else {
            None
        }
    }

    /// The displayed series of the metric called `name`: counters and gauges transformed by
    /// `kind`, histograms as recorded; each aligned with the last timestamps.
    pub fn series(&self, name: &str, kind: PlotKind) -> (r: Option<Series<H>>)
        requires
            self.wf(),
        ensures
            series_view(r) == self.series_spec(name@, kind),
    {
        match self.get_metric(name) {
            Some(MetricValues::Single(v)) => {
                proof {
                    self.lemma_series_fits(name@);
                }
                let x = aligned_timestamps(self.history.timestamps(), v.len());
                let y = match kind {
                    PlotKind::Line => line_values(&v),
                    PlotKind::Rate => rate_values(&v),
                };
                assert(self.displayed(v@, kind) == y@.map_values(|e: i128| e as int));
                Some(Series::Values { x, y })
            },
            Some(MetricValues::Quantile(v)) => {
                proof {
                    self.lemma_series_fits(name@);
                }
                let x = aligned_timestamps(self.history.timestamps(), v.len());
                Some(Series::Quantiles { x, q: v })
            },
            None => None,
        }
    }

    /// The timestamps that the last `n` cycles were recorded at.
    pub open spec fn last_timestamps(&self, n: int) -> Seq<u64> {
        let ts = self.history.timestamps_view();
        ts.subrange(ts.len() - n, ts.len() as int)
    }

    /// What `series` displays for `name` with `kind`.
    pub open spec fn series_spec(&self, name: Seq<char>, kind: PlotKind) -> Option<SeriesView<H>> {
        match self.get_metric_spec(name) {
            Some(MetricView::Single(v)) => Some(
                SeriesView::Values { x: self.last_timestamps(v.len() as int), y: self.displayed(v, kind) },
            ),
            Some(MetricView::Quantile(v)) => Some(
                SeriesView::Quantiles { x: self.last_timestamps(v.len() as int), q: v },
            ),
            None => None,
        }
    }

    /// Whether `cell` is the member `m` of a correlated group together with its displayed
    /// series.
    pub open spec fn shows(&self, cell: (String, PlotKind, Option<Series<H>>), m: (Seq<char>, PlotKind)) -> bool {
        &&& cell.0@ == m.0
        &&& cell.1 == m.1
        &&& series_view(cell.2) == self.series_spec(m.0, m.1)
    }

    /// The names of all metrics of the report, as `metrics` lists them.
    pub open spec fn names(&self) -> Seq<Seq<char>> {
        names_of(self.counters@) + names_of(self.gauges@) + names_of(self.histograms@)
    }

    /// The rows of one display: the groups that `group` correlates among the report's metric
    /// names, each member with its displayed series.
    pub fn group_series(&self, group: &PatternGroup) -> (r: Vec<Vec<(String, PlotKind, Option<Series<H>>)>>)
        requires
            self.wf(),
        ensures
            r@.len() == correlate(group@, self.names()).len(),
            forall|i: int|
                0 <= i < r@.len() ==> #[trigger] r@[i]@.len() == correlate(group@, self.names())[i].len(),
            forall|i: int, j: int|
                0 <= i < r@.len() && 0 <= j < r@[i]@.len() ==> self.shows(
                    #[trigger] r@[i]@[j],
                    correlate(group@, self.names())[i][j],
                ),
    {
        let names = self.metrics();
        let ns = names.as_slice();
        assert(names_view(ns) =~= self.names());
        let rows = group.apply(ns);
        let ghost g = correlate(group@, self.names());
        assert(g.len() == rows@.len());
        let mut out: Vec<Vec<(String, PlotKind, Option<Series<H>>)>> = Vec::new();
        let mut i: usize = 0;
        while i < rows.len()
            invariant
                0 <= i <= rows@.len(),
                self.wf(),
                g == correlate(group@, self.names()),
                groups_view(rows) == g,
                out@.len() == i,
                forall|a: int| 0 <= a < i ==> #[trigger] out@[a]@.len() == g[a].len(),
                forall|a: int, b: int|
                    0 <= a < i && 0 <= b < out@[a]@.len() ==> self.shows(#[trigger] out@[a]@[b], g[a][b]),
            decreases rows@.len() - i,
        {
            assert(group_view(rows@[i as int]) == g[i as int]);
            let mut row: Vec<(String, PlotKind, Option<Series<H>>)> = Vec::new();
            let mut j: usize = 0;
            while j < rows[i].len()
                invariant
                    0 <= i < rows@.len(),
                    0 <= j <= rows@[i as int]@.len(),
                    self.wf(),
                    group_view(rows@[i as int]) == g[i as int],
                    row@.len() == j,
                    forall|b: int| 0 <= b < j ==> self.shows(#[trigger] row@[b], g[i as int][b]),
                decreases rows@[i as int]@.len() - j,
            {
                let name = rows[i][j].0.clone();
                let kind = rows[i][j].1;
                assert(member_view(rows@[i as int]@[j as int]) == g[i as int][j as int]);
                let sr = self.series(name.as_str(), kind);
                row.push((name, kind, sr));
                j += 1;
            }
            out.push(row);
            i += 1;
        }
        out
    }

    pub open spec fn displayed(&self, v: Seq<u64>, kind: PlotKind) -> Seq<int> {
        match kind {
            PlotKind::Line => line_of(v),
            PlotKind::Rate => rate_of(v),
        }
    }

    /// The values recorded for `name`, as `get_metric` finds them.
    pub open spec fn get_metric_spec(&self, name: Seq<char>) -> Option<MetricView<H>> {
        let k = plain_key(name);
        if self.counters@.contains(k) {
            Some(
                MetricView::Single(
                    column(self.history.counter_rows(), choose|i: int| 0 <= i < self.counters@.len() && self.counters@[i] == k),
                ),
            )
        } else if self.gauges@.contains(k) {
            Some(
                MetricView::Single(
                    column(self.history.gauge_rows(), choose|i: int| 0 <= i < self.gauges@.len() && self.gauges@[i] == k),
                ),
            )
        } else if self.histograms@.contains(k) {
            Some(
                MetricView::Quantile(
                    column(self.history.histogram_rows(), choose|i: int| 0 <= i < self.histograms@.len() && self.histograms@[i] == k),
                ),
            )
        } else {
            None
        }
    }

    proof fn lemma_series_fits(&self, name: Seq<char>)
        requires
            self.wf(),
        ensures
            self.get_metric_spec(name) matches Some(MetricView::Single(v)) ==> v.len()
                <= self.history.timestamps_view().len(),
            self.get_metric_spec(name) matches Some(MetricView::Quantile(v)) ==> v.len()
                <= self.history.timestamps_view().len(),
    {
        let k = plain_key(name);
        if self.counters@.contains(k) {
            lemma_column_len(self.history.counter_rows(), choose|i: int| 0 <= i < self.counters@.len() && self.counters@[i] == k);
        } else if self.gauges@.contains(k) {
            lemma_column_len(self.history.gauge_rows(), choose|i: int| 0 <= i < self.gauges@.len() && self.gauges@[i] == k);
        } else if self.histograms@.contains(k) {
            lemma_column_len(self.history.histogram_rows(), choose|i: int| 0 <= i < self.histograms@.len() && self.histograms@[i] == k);
        }
    }
}

pub open spec fn values_view<H>(r: Option<MetricValues<H>>) -> Option<MetricView<H>> {
    match r {
        Some(MetricValues::Single(v)) => Some(MetricView::Single(v@)),
        Some(MetricValues::Quantile(v)) => Some(MetricView::Quantile(v@)),
        None => None,
    }
}

/// A displayed series as a value.
pub enum SeriesView<H> {
    Values { x: Seq<u64>, y: Seq<int> },
    Quantiles { x: Seq<u64>, q: Seq<H> },
}

pub open spec fn series_view<H>(r: Option<Series<H>>) -> Option<SeriesView<H>> {
    match r {
        Some(Series::Values { x, y }) => Some(
            SeriesView::Values { x: x@, y: y@.map_values(|e: i128| e as int) },
        ),
        Some(Series::Quantiles { x, q }) => Some(SeriesView::Quantiles { x: x@, q: q@ }),
        None => None,
    }
}

/// The recorded values of a metric as a value.
pub enum MetricView<H> {
    Single(Seq<u64>),
    Quantile(Seq<H>),
}

fn push_names<'a>(r: &mut Vec<&'a str>, t: &'a KeyTable)
    ensures
        final(r)@.map_values(|s: &str| s@) == old(r)@.map_values(|s: &str| s@) + names_of(t@),
{
    let ghost start = old(r)@.map_values(|s: &str| s@);
    let mut i: usize = 0;
    while i < t.len()
        invariant
            0 <= i <= t@.len(),
            r@.map_values(|s: &str| s@) == start + names_of(t@).take(i as int),
        decreases t@.len() - i,
    {
        let ghost prev = r@;
        r.push(t.name_at(i));
        assert(r@.map_values(|s: &str| s@) =~= prev.map_values(|s: &str| s@).push(t@[i as int].0));
        assert(names_of(t@).take(i + 1) =~= names_of(t@).take(i as int).push(t@[i as int].0));
        i += 1;
    }
    assert(names_of(t@).take(t@.len() as int) =~= names_of(t@));
}

} // verus!
