use vstd::prelude::*;

verus! {

/// First differences of `v`, with the first point equal to the first raw value.
pub open spec fn rate_of(v: Seq<u64>) -> Seq<int> {
    Seq::new(v.len(), |i: int| if i == 0 { v[0] as int } else { v[i] - v[i - 1] })
}

/// The values as raw integers (no transform).
pub open spec fn line_of(v: Seq<u64>) -> Seq<int> {
    Seq::new(v.len(), |i: int| v[i] as int)
}

/// Widens raw values for display.
pub fn line_values(vals: &Vec<u64>) -> (r: Vec<i128>)
    ensures
        r@.map_values(|x: i128| x as int) == line_of(vals@),
{
    let mut r: Vec<i128> = Vec::new();
    let mut i: usize = 0;
    while i < vals.len()
        invariant
            0 <= i <= vals.len(),
            r@.len() == i,
            forall|j: int| 0 <= j < i ==> r@[j] == vals@[j] as int,
        decreases vals.len() - i,
    {
        r.push(vals[i] as i128);
        i += 1;
    }
    assert(r@.map_values(|x: i128| x as int) =~= line_of(vals@));
    r
}

/// The rate of a counter or gauge: its first value, then the change from each value to the
/// next (negative where the value went down).
pub fn rate_values(vals: &Vec<u64>) -> (r: Vec<i128>)
    ensures
        r@.map_values(|x: i128| x as int) == rate_of(vals@),
{
    let mut r: Vec<i128> = Vec::new();
    let mut i: usize = 0;
    while i < vals.len()
        invariant
            0 <= i <= vals.len(),
            r@.len() == i,
            forall|j: int| 0 <= j < i ==> r@[j] == rate_of(vals@)[j],
        decreases vals.len() - i,
    {
        if i == 0 {
            r.push(vals[0] as i128);
        } else {
            r.push(vals[i] as i128 - vals[i - 1] as i128);
        }
        i += 1;
    }
    assert(r@.map_values(|x: i128| x as int) =~= rate_of(vals@));
    r
}

/// The timestamps of a series of `n` values: series that start late are aligned with the
/// end of the timeline, so they take its last `n` entries.
pub fn aligned_timestamps(timestamps: &Vec<u64>, n: usize) -> (r: Vec<u64>)
    requires
        n <= timestamps@.len(),
    ensures
        r@ == timestamps@.subrange(timestamps@.len() - n, timestamps@.len() as int),
{
    let start: usize = timestamps.len() - n;
    let mut r: Vec<u64> = Vec::new();
    let mut i: usize = start;
    while i < timestamps.len()
        invariant
            start == timestamps@.len() - n,
            start <= i <= timestamps@.len(),
            r@ == timestamps@.subrange(start as int, i as int),
        decreases timestamps.len() - i,
    {
        r.push(timestamps[i]);
        assert(r@ =~= timestamps@.subrange(start as int, i + 1));
        i += 1;
    }
    r
}

/// The sum of a sequence of integers.
pub open spec fn total(s: Seq<int>) -> int
    decreases s.len(),
{
    if s.len() == 0 {
        0
    } else {
        total(s.drop_last()) + s.last()
    }
}

/// Running sums undo the rate transform: adding up the first `i + 1` displayed points gives
/// back the raw value at `i`.
pub proof fn lemma_rate_sums_to_value(v: Seq<u64>, i: int)
    requires
        0 <= i < v.len(),
    ensures
        total(rate_of(v).take(i + 1)) == v[i] as int,
    decreases i,
{
    if i > 0 {
        lemma_rate_sums_to_value(v, i - 1);
        let s = rate_of(v).take(i + 1);
        assert(s.drop_last() =~= rate_of(v).take(i));
        assert(s.last() == v[i] - v[i - 1]);
        assert(total(s) == total(s.drop_last()) + s.last());
    } else {
        let s = rate_of(v).take(1);
        assert(s.drop_last() =~= Seq::<int>::empty());
        assert(total(s) == total(s.drop_last()) + s.last());
        assert(total(s.drop_last()) == 0);
    }
}

} // verus!
