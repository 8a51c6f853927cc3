use vstd::prelude::*;

verus! {

/// The rows of a table as values: one row per scrape cycle, holding the value of each slot
/// that existed at that cycle.
pub open spec fn rows_view<T>(rows: Vec<Vec<T>>) -> Seq<Seq<T>> {
    rows@.map_values(|r: Vec<T>| r@)
}

/// Slots are never removed, so no row is narrower than the one before it.
pub open spec fn widths_grow<T>(rows: Seq<Seq<T>>) -> bool {
    forall|a: int, b: int| 0 <= a <= b < rows.len() ==> rows[a].len() <= rows[b].len()
}

/// The series of slot `i`: its value at each cycle in which it existed, in cycle order.
pub open spec fn column<T>(rows: Seq<Seq<T>>, i: int) -> Seq<T>
    decreases rows.len(),
{
    if rows.len() == 0 {
        seq![]
    } else {
        let c = column(rows.drop_last(), i);
        if 0 <= i < rows.last().len() {
            c.push(rows.last()[i])
        } else {
            c
        }
    }
}

pub open spec fn nondecreasing(s: Seq<u64>) -> bool {
    forall|a: int, b: int| 0 <= a <= b < s.len() ==> s[a] <= s[b]
}

/// Everything that scraping has recorded: the elapsed time of each cycle (in microseconds
/// since collection started), and per cycle the values of the counters and gauges and the
/// quantile summary `H` of each histogram.
pub struct History<H> {
    timestamps: Vec<u64>,
    counters: Vec<Vec<u64>>,
    gauges: Vec<Vec<u64>>,
    histograms: Vec<Vec<H>>,
}

impl<H: Copy> History<H> {
    pub closed spec fn timestamps_view(&self) -> Seq<u64> {
        self.timestamps@
    }

    pub closed spec fn counter_rows(&self) -> Seq<Seq<u64>> {
        rows_view(self.counters)
    }

    pub closed spec fn gauge_rows(&self) -> Seq<Seq<u64>> {
        rows_view(self.gauges)
    }

    pub closed spec fn histogram_rows(&self) -> Seq<Seq<H>> {
        rows_view(self.histograms)
    }

    pub open spec fn wf(&self) -> bool {
        &&& nondecreasing(self.timestamps_view())
        &&& self.counter_rows().len() == self.timestamps_view().len()
        &&& self.gauge_rows().len() == self.timestamps_view().len()
        &&& self.histogram_rows().len() == self.timestamps_view().len()
        &&& widths_grow(self.counter_rows())
        &&& widths_grow(self.gauge_rows())
        &&& widths_grow(self.histogram_rows())
    }

    /// The width of the last row, or zero before the first cycle.
    pub open spec fn last_width<T>(rows: Seq<Seq<T>>) -> int {
        if rows.len() == 0 {
            0
        } else {
            rows.last().len() as int
        }
    }

    pub fn new() -> (r: Self)
        ensures
            r.wf(),
            r.timestamps_view().len() == 0,
    {
        let r = History {
            timestamps: Vec::new(),
            counters: Vec::new(),
            gauges: Vec::new(),
            histograms: Vec::new(),
        };
        assert(r.counter_rows() =~= Seq::<Seq<u64>>::empty());
        assert(r.gauge_rows() =~= Seq::<Seq<u64>>::empty());
        assert(r.histogram_rows() =~= Seq::<Seq<H>>::empty());
        r
    }

    /// The number of cycles recorded.
    pub fn cycles(&self) -> (r: usize)
        ensures
            r == self.timestamps_view().len(),
    {
        self.timestamps.len()
    }

    pub fn timestamps(&self) -> (r: &Vec<u64>)
        ensures
            r@ == self.timestamps_view(),
    {
        &self.timestamps
    }

    /// Whether `record_cycle` can take a cycle at time `elapsed` with rows of these widths: time
    /// does not go back, and no kind has fewer slots than at the cycle before.
    pub fn accepts_cycle(&self, elapsed: u64, counters: usize, gauges: usize, histograms: usize) -> (r:
        bool)
        requires
            self.wf(),
        ensures
            r == ((self.timestamps_view().len() > 0 ==> self.timestamps_view().last() <= elapsed)
                && Self::last_width(self.counter_rows()) <= counters && Self::last_width(
                self.gauge_rows(),
            ) <= gauges && Self::last_width(self.histogram_rows()) <= histograms),
    {
        let n = self.timestamps.len();
        if n == 0 {
            return true;
        }
        assert(self.counter_rows().last() == self.counters@[n - 1]@);
        assert(self.gauge_rows().last() == self.gauges@[n - 1]@);
        assert(self.histogram_rows().last() == self.histograms@[n - 1]@);
        self.timestamps[n - 1] <= elapsed && self.counters[n - 1].len() <= counters
            && self.gauges[n - 1].len() <= gauges && self.histograms[n - 1].len() <= histograms
    }

    /// Appends one scrape cycle: its elapsed time and the values read from every slot of each
    /// kind, in slot order.
    pub fn record_cycle(
        &mut self,
        elapsed: u64,
        counters: Vec<u64>,
        gauges: Vec<u64>,
        histograms: Vec<H>,
    )
        requires
            old(self).wf(),
            old(self).timestamps_view().len() > 0 ==> old(self).timestamps_view().last()
                <= elapsed,
            Self::last_width(old(self).counter_rows()) <= counters@.len(),
            Self::last_width(old(self).gauge_rows()) <= gauges@.len(),
            Self::last_width(old(self).histogram_rows()) <= histograms@.len(),
        ensures
            final(self).wf(),
            final(self).timestamps_view() == old(self).timestamps_view().push(elapsed),
            final(self).counter_rows() == old(self).counter_rows().push(counters@),
            final(self).gauge_rows() == old(self).gauge_rows().push(gauges@),
            final(self).histogram_rows() == old(self).histogram_rows().push(histograms@),
    {
        let ghost c0 = self.counters@;
        let ghost g0 = self.gauges@;
        let ghost h0 = self.histograms@;
        let ghost cv = counters@;
        let ghost gv = gauges@;
        let ghost hv = histograms@;
        self.timestamps.push(elapsed);
        self.counters.push(counters);
        self.gauges.push(gauges);
        self.histograms.push(histograms);
        assert(self.counter_rows() =~= rows_view(old(self).counters).push(cv));
        assert(self.gauge_rows() =~= rows_view(old(self).gauges).push(gv));
        assert(self.histogram_rows() =~= rows_view(old(self).histograms).push(hv));
    }

    /// The series of counter slot `i`.
    pub fn counter_series(&self, i: usize) -> (r: Vec<u64>)
        ensures
            r@ == column(self.counter_rows(), i as int),
    {
        column_values(&self.counters, i)
    }

    /// The series of gauge slot `i`.
    pub fn gauge_series(&self, i: usize) -> (r: Vec<u64>)
        ensures
            r@ == column(self.gauge_rows(), i as int),
    {
        column_values(&self.gauges, i)
    }

    /// The series of histogram slot `i`.
    pub fn histogram_series(&self, i: usize) -> (r: Vec<H>)
        ensures
            r@ == column(self.histogram_rows(), i as int),
    {
        column_values(&self.histograms, i)
    }
}

fn column_values<T: Copy>(rows: &Vec<Vec<T>>, i: usize) -> (r: Vec<T>)
    ensures
        r@ == column(rows_view(*rows), i as int),
{
    let ghost rv = rows_view(*rows);
    let mut r: Vec<T> = Vec::new();
    let mut c: usize = 0;
    while c < rows.len()
        invariant
            0 <= c <= rows.len(),
            rv == rows_view(*rows),
            r@ == column(rv.take(c as int), i as int),
        decreases rows.len() - c,
    {
        assert(rv.take(c + 1).drop_last() =~= rv.take(c as int));
        assert(rv.take(c + 1).last() == rows@[c as int]@);
        if i < rows[c].len() {
            r.push(rows[c][i]);
        }
        c += 1;
    }
    assert(rv.take(rows.len() as int) =~= rv);
    r
}

/// Alignment of a late series: a slot that first appears at cycle `s` (absent from the rows
/// before, present from row `s` on) has one value for each cycle from `s` to the last, so its
/// values line up with the last `rows.len() - s` timestamps, value `j` with cycle `s + j`.
pub proof fn lemma_late_series_alignment<T>(rows: Seq<Seq<T>>, i: int, s: int)
    requires
        widths_grow(rows),
        0 <= i,
        0 <= s <= rows.len(),
        s > 0 ==> rows[s - 1].len() <= i,
        s < rows.len() ==> i < rows[s].len(),
    ensures
        column(rows, i).len() == rows.len() - s,
        forall|j: int| 0 <= j < rows.len() - s ==> #[trigger] column(rows, i)[j] == rows[s + j][i],
    decreases rows.len(),
{
    if rows.len() > 0 {
        let p = rows.drop_last();
        if s == rows.len() {
            lemma_absent_column_empty(rows, i);
        } else {
            assert(widths_grow(p));
            lemma_late_series_alignment(p, i, s);
            assert(i < rows.last().len());
        }
    }
}

proof fn lemma_absent_column_empty<T>(rows: Seq<Seq<T>>, i: int)
    requires
        widths_grow(rows),
        0 <= i,
        rows.len() > 0 ==> rows.last().len() <= i,
    ensures
        column(rows, i).len() == 0,
    decreases rows.len(),
{
    if rows.len() > 0 {
        let p = rows.drop_last();
        assert(widths_grow(p));
        if p.len() > 0 {
            assert(p.last() == rows[rows.len() - 2]);
        }
        lemma_absent_column_empty(p, i);
    }
}

} // verus!
