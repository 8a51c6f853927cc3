use crate::history::History;
use crate::report::Report;
use vstd::prelude::*;

verus! {

/// A label as plain text: key and value.
pub type LabelView = (Seq<char>, Seq<char>);

/// A metric key as a value: its name and the set of its labels.
pub type KeyView = (Seq<char>, Set<LabelView>);

pub open spec fn label_seq(labels: Seq<(String, String)>) -> Seq<LabelView> {
    labels.map_values(|l: (String, String)| (l.0@, l.1@))
}

/// The identity of a metric: a name and an unordered set of labels.
#[derive(Debug)]
pub struct MetricKey {
    pub name: String,
    pub labels: Vec<(String, String)>,
}

impl View for MetricKey {
    type V = KeyView;

    open spec fn view(&self) -> KeyView {
        (self.name@, label_seq(self.labels@).to_set())
    }
}

impl MetricKey {
    pub fn new(name: String, labels: Vec<(String, String)>) -> (r: Self)
        ensures
            r.name == name,
            r.labels == labels,
    {
        MetricKey { name, labels }
    }

    /// A key with a name and no labels.
    pub fn from_name(name: &str) -> (r: Self)
        ensures
            r@ == (name@, Set::<LabelView>::empty()),
    {
        let r = MetricKey { name: name.to_owned(), labels: Vec::new() };
        assert(label_seq(r.labels@).to_set() =~= Set::<LabelView>::empty());
        r
    }

    /// Whether two keys are the same metric: equal names and equal label sets, whatever the
    /// order in which the labels were given.
    pub fn same_key(&self, other: &MetricKey) -> (r: bool)
        ensures
            r == (self@ == other@),
    {
        if self.name != other.name {
            return false;
        }
        let a = labels_within(&self.labels, &other.labels);
        let b = labels_within(&other.labels, &self.labels);
        proof {
            let sa = label_seq(self.labels@).to_set();
            let sb = label_seq(other.labels@).to_set();
            if a && b {
                assert(sa =~= sb);
            }
            if !a {
                let i = choose|i: int|
                    0 <= i < self.labels@.len() && !label_seq(other.labels@).contains(
                        label_seq(self.labels@)[i],
                    );
                assert(sa.contains(label_seq(self.labels@)[i]));
            }
            if !b {
                let i = choose|i: int|
                    0 <= i < other.labels@.len() && !label_seq(self.labels@).contains(
                        label_seq(other.labels@)[i],
                    );
                assert(sb.contains(label_seq(other.labels@)[i]));
            }
        }
        a && b
    }
}

fn has_label(labels: &Vec<(String, String)>, l: &(String, String)) -> (r: bool)
    ensures
        r == label_seq(labels@).contains((l.0@, l.1@)),
{
    let mut i: usize = 0;
    while i < labels.len()
        invariant
            0 <= i <= labels.len(),
            forall|j: int| 0 <= j < i ==> label_seq(labels@)[j] != (l.0@, l.1@),
        decreases labels.len() - i,
    {
        if labels[i].0 == l.0 && labels[i].1 == l.1 {
            assert(label_seq(labels@)[i as int] == (l.0@, l.1@));
            return true;
        }
        i += 1;
    }
    false
}

/// Whether every label of `a` is also in `b`.
fn labels_within(a: &Vec<(String, String)>, b: &Vec<(String, String)>) -> (r: bool)
    ensures
        r == (forall|i: int|
            0 <= i < a@.len() ==> label_seq(b@).contains(#[trigger] label_seq(a@)[i])),
{
    let mut i: usize = 0;
    while i < a.len()
        invariant
            0 <= i <= a.len(),
            forall|j: int| 0 <= j < i ==> label_seq(b@).contains(#[trigger] label_seq(a@)[j]),
        decreases a.len() - i,
    {
        if !has_label(b, &a[i]) {
            assert(label_seq(a@)[i as int] == (a@[i as int].0@, a@[i as int].1@));
            return false;
        }
        i += 1;
    }
    true
}

/// No key occurs twice.
pub open spec fn distinct_keys(t: Seq<KeyView>) -> bool {
    forall|i: int, j: int| 0 <= i < t.len() && 0 <= j < t.len() && i != j ==> t[i] != t[j]
}

/// The table after registering `k`: unchanged where `k` is present, else `k` appended.
pub open spec fn after_register(t: Seq<KeyView>, k: KeyView) -> Seq<KeyView> {
    if t.contains(k) {
        t
    } else {
        t.push(k)
    }
}

/// The keys of one kind of metric, each in the slot it was given when first registered.
/// Slots are never removed or reused, so a slot identifies one cell for good.
pub struct KeyTable {
    keys: Vec<MetricKey>,
}

impl View for KeyTable {
    type V = Seq<KeyView>;

    closed spec fn view(&self) -> Seq<KeyView> {
        self.keys@.map_values(|k: MetricKey| k@)
    }
}

impl KeyTable {
    pub open spec fn wf(&self) -> bool {
        distinct_keys(self@)
    }

    pub fn new() -> (r: Self)
        ensures
            r@ == Seq::<KeyView>::empty(),
            r.wf(),
    {
        let r = KeyTable { keys: Vec::new() };
        assert(r@ =~= Seq::<KeyView>::empty());
        r
    }

    pub fn len(&self) -> (r: usize)
        ensures
            r == self@.len(),
    {
        self.keys.len()
    }

    /// The name of the key in slot `i`.
    pub fn name_at(&self, i: usize) -> (r: &str)
        requires
            i < self@.len(),
        ensures
            r@ == self@[i as int].0,
    {
        self.keys[i].name.as_str()
    }

    /// The slot of `key`, if it is registered.
    pub fn find(&self, key: &MetricKey) -> (r: Option<usize>)
        ensures
            r matches Some(i) ==> i < self@.len() && self@[i as int] == key@,
            r is None ==> !self@.contains(key@),
    {
        let mut i: usize = 0;
        while i < self.keys.len()
            invariant
                0 <= i <= self.keys.len(),
                forall|j: int| 0 <= j < i ==> self@[j] != key@,
            decreases self.keys.len() - i,
        {
            if self.keys[i].same_key(key) {
                return Some(i);
            }
            i += 1;
        }
        None
    }

    /// The slot of `key`, giving it the next free slot if it is new.
    pub fn register(&mut self, key: &MetricKey) -> (r: usize)
        requires
            old(self).wf(),
        ensures
            final(self).wf(),
            final(self)@ == after_register(old(self)@, key@),
            r < final(self)@.len(),
            final(self)@[r as int] == key@,
    {
        match self.find(key) {
            Some(i) => i,
            None => {
                let ghost prev = self@;
                self.keys.push(key.clone_key());
                assert(self@ =~= prev.push(key@));
                self.keys.len() - 1
            },
        }
    }
}

impl MetricKey {
    /// A copy of the key.
    pub fn clone_key(&self) -> (r: Self)
        ensures
            r@ == self@,
    {
        let mut labels: Vec<(String, String)> = Vec::new();
        let mut i: usize = 0;
        while i < self.labels.len()
            invariant
                0 <= i <= self.labels.len(),
                label_seq(labels@) == label_seq(self.labels@).take(i as int),
            decreases self.labels.len() - i,
        {
            let ghost prev = labels@;
            let l = (self.labels[i].0.clone(), self.labels[i].1.clone());
            labels.push(l);
            assert(label_seq(labels@) =~= label_seq(prev).push((l.0@, l.1@)));
            assert(label_seq(labels@) =~= label_seq(self.labels@).take(i + 1));
            i += 1;
        }
        assert(label_seq(self.labels@).take(self.labels@.len() as int) =~= label_seq(
            self.labels@,
        ));
        MetricKey { name: self.name.clone(), labels }
    }
}

/// A key keeps its slot: in any later state of a table (one that extends it), the key is
/// found in the same slot, so every registration of a key reaches the same cell.
pub proof fn lemma_slot_is_stable(t1: Seq<KeyView>, t2: Seq<KeyView>, k: KeyView, i: int, j: int)
    requires
        distinct_keys(t2),
        t1.is_prefix_of(t2),
        0 <= i < t1.len(),
        t1[i] == k,
        0 <= j < t2.len(),
        t2[j] == k,
    ensures
        i == j,
{
    assert(t2[i] == t1[i]);
}

/// Registry identity for any number of registrations: along a run of table states, each one
/// extending the one before, every registration of key `k` (the one at state `m` finding `k`
/// in slot `idx[m]`) gets the slot of the first, so all of them share one cell.
pub proof fn lemma_every_registration_shares_slot(
    ts: Seq<Seq<KeyView>>,
    k: KeyView,
    idx: Seq<int>,
)
    requires
        ts.len() > 0,
        idx.len() == ts.len(),
        forall|a: int| 0 <= a < ts.len() - 1 ==> (#[trigger] ts[a]).is_prefix_of(ts[a + 1]),
        distinct_keys(ts.last()),
        forall|m: int| 0 <= m < ts.len() ==> 0 <= #[trigger] idx[m] < ts[m].len() && ts[m][idx[m]] == k,
    ensures
        forall|m: int| 0 <= m < idx.len() ==> #[trigger] idx[m] == idx[0],
{
    assert forall|m: int| 0 <= m < idx.len() implies #[trigger] idx[m] == idx[0] by {
        let last = ts.len() - 1;
        assert(0 <= idx[m] < ts[m].len() && ts[m][idx[m]] == k);
        assert(0 <= idx[0] < ts[0].len() && ts[0][idx[0]] == k);
        // both slots hold k in the last state, whose keys are distinct
        lemma_prefix_of_chain_end(ts, m, last);
        lemma_prefix_of_chain_end(ts, 0, last);
        assert(ts[last][idx[m]] == ts[m][idx[m]]);
        assert(ts[last][idx[0]] == ts[0][idx[0]]);
    }
}

proof fn lemma_prefix_of_chain_end(ts: Seq<Seq<KeyView>>, m: int, n: int)
    requires
        0 <= m <= n < ts.len(),
        forall|a: int| 0 <= a < ts.len() - 1 ==> (#[trigger] ts[a]).is_prefix_of(ts[a + 1]),
    ensures
        ts[m].is_prefix_of(ts[n]),
    decreases n - m,
{
    if m < n {
        lemma_prefix_of_chain_end(ts, m + 1, n);
        assert(ts[m].is_prefix_of(ts[m + 1]));
    }
}

/// Registration only ever extends a table, and registering a key twice in a row changes
/// nothing the second time.
pub proof fn lemma_register_extends(t: Seq<KeyView>, k: KeyView)
    ensures
        t.is_prefix_of(after_register(t, k)),
        after_register(after_register(t, k), k) == after_register(t, k),
{
    if !t.contains(k) {
        assert(t.push(k)[t.len() as int] == k);
    }
}

impl KeyTable {
    /// A copy of the table.
    pub fn copy(&self) -> (r: KeyTable)
        ensures
            r@ == self@,
    {
        let mut keys: Vec<MetricKey> = Vec::new();
        let mut i: usize = 0;
        while i < self.keys.len()
            invariant
                0 <= i <= self.keys.len(),
                keys@.map_values(|k: MetricKey| k@) == self@.take(i as int),
            decreases self.keys.len() - i,
        {
            let ghost prev = keys@;
            let k = self.keys[i].clone_key();
            keys.push(k);
            assert(keys@.map_values(|k: MetricKey| k@) =~= prev.map_values(|k: MetricKey| k@).push(
                k@,
            ));
            assert(keys@.map_values(|k: MetricKey| k@) =~= self@.take(i + 1));
            i += 1;
        }
        assert(self@.take(self.keys.len() as int) =~= self@);
        KeyTable { keys }
    }
}

/// The cells of one kind of metric, each in the slot of its key.
pub struct Slots<C> {
    keys: KeyTable,
    cells: Vec<C>,
}

impl<C> Slots<C> {
    pub closed spec fn keys_view(&self) -> Seq<KeyView> {
        self.keys@
    }

    pub closed spec fn cells_view(&self) -> Seq<C> {
        self.cells@
    }

    pub open spec fn wf(&self) -> bool {
        &&& distinct_keys(self.keys_view())
        &&& self.cells_view().len() == self.keys_view().len()
    }

    pub fn new() -> (r: Self)
        ensures
            r.wf(),
            r.keys_view().len() == 0,
    {
        Slots { keys: KeyTable::new(), cells: Vec::new() }
    }

    /// The cell of `key`; a key seen for the first time gets the cell that `make` builds, in
    /// the next free slot. A key that is present keeps its cell, and `make` is not called.
    pub fn get_or_insert_with<F: FnOnce() -> C>(&mut self, key: &MetricKey, make: F) -> (r: usize)
        requires
            old(self).wf(),
            make.requires(()),
        ensures
            final(self).wf(),
            final(self).keys_view() == after_register(old(self).keys_view(), key@),
            old(self).cells_view().is_prefix_of(final(self).cells_view()),
            old(self).keys_view().contains(key@) ==> final(self).cells_view() == old(
                self,
            ).cells_view(),
            !old(self).keys_view().contains(key@) ==> r == old(self).keys_view().len()
                && make.ensures((), final(self).cells_view()[r as int]),
            r < final(self).keys_view().len(),
            final(self).keys_view()[r as int] == key@,
    {
        match self.keys.find(key) {
            Some(i) => i,
            None => {
                let c = make();
                let i = self.keys.register(key);
                self.cells.push(c);
                i
            },
        }
    }

    /// The cell in slot `i`.
    pub fn cell(&self, i: usize) -> (r: &C)
        requires
            self.wf(),
            i < self.keys_view().len(),
        ensures
            *r == self.cells_view()[i as int],
    {
        &self.cells[i]
    }

    /// All cells, in slot order.
    pub fn cells(&self) -> (r: &Vec<C>)
        ensures
            r@ == self.cells_view(),
    {
        &self.cells
    }

    /// A copy of the keys, in slot order.
    pub fn keys(&self) -> (r: KeyTable)
        ensures
            r@ == self.keys_view(),
    {
        self.keys.copy()
    }
}

/// The metric registry: for each kind, the cell of every registered key.
pub struct Registry<C, B> {
    pub counters: Slots<C>,
    pub gauges: Slots<C>,
    pub histograms: Slots<B>,
}

impl<C, B> Registry<C, B> {
    pub open spec fn wf(&self) -> bool {
        self.counters.wf() && self.gauges.wf() && self.histograms.wf()
    }

    pub fn new() -> (r: Self)
        ensures
            r.wf(),
            r.counters.keys_view().len() == 0,
            r.gauges.keys_view().len() == 0,
            r.histograms.keys_view().len() == 0,
    {
        Registry { counters: Slots::new(), gauges: Slots::new(), histograms: Slots::new() }
    }

    /// The report of a finished collection: the keys registered so far and their history.
    pub fn report<H: Copy>(&self, history: History<H>) -> (r: Report<H>)
        requires
            self.wf(),
            history.wf(),
        ensures
            r.wf(),
            r.counters@ == self.counters.keys_view(),
            r.gauges@ == self.gauges.keys_view(),
            r.histograms@ == self.histograms.keys_view(),
            r.history == history,
    {
        Report {
            counters: self.counters.keys(),
            gauges: self.gauges.keys(),
            histograms: self.histograms.keys(),
            history,
        }
    }
}

} // verus!
