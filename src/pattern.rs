use regex::Regex;
use vstd::prelude::*;

verus! {

#[verifier::external_type_specification]
#[verifier::external_body]
pub struct ExRegex(regex::Regex);

#[verifier::external_type_specification]
#[verifier::external_body]
pub struct ExRegexError(regex::Error);

/// Whether `regex::Regex::new` accepts a pattern.
pub uninterp spec fn regex_compiles(pattern: Seq<char>) -> bool;

/// The pattern text that a compiled regex was built from (what `Regex::as_str` gives back).
pub uninterp spec fn regex_source(re: Regex) -> Seq<char>;

/// The text of the first capturing group of the leftmost match of `pattern` in `haystack`;
/// `None` where the pattern does not match or that group takes no part in the match.
pub uninterp spec fn first_capture(pattern: Seq<char>, haystack: Seq<char>) -> Option<Seq<char>>;

/// Relies on `regex::Regex::new`: it succeeds exactly on the patterns it accepts, and the
/// regex it returns keeps the pattern text it was built from.
#[verifier::external_body]
fn compile_regex(pattern: &str) -> (r: Result<Regex, regex::Error>)
    ensures
        r is Ok <==> regex_compiles(pattern@),
        r matches Ok(re) ==> regex_source(re) == pattern@,
{
    Regex::new(pattern)
}

/// Relies on `regex::Regex::captures` and `regex::Captures::get`: the text of group 1 of the
/// leftmost match, if there is a match and that group took part in it.
#[verifier::external_body]
fn capture_first(re: &Regex, haystack: &str) -> (r: Option<String>)
    ensures
        match r {
            Some(s) => first_capture(regex_source(*re), haystack@) == Some(s@),
            None => first_capture(regex_source(*re), haystack@) is None,
        },
{
    match re.captures(haystack) {
        Some(caps) => match caps.get(1) {
            Some(m) => Some(m.as_str().to_string()),
            None => None,
        },
        None => None,
    }
}

/// Whether `regex` compiles.
pub fn is_valid_pattern(regex: &str) -> (r: bool)
    ensures
        r == regex_compiles(regex@),
{
    compile_regex(regex).is_ok()
}

/// How a series is displayed: its raw values, or their first differences.
#[derive(Debug, Copy, Clone, PartialEq, Eq, Structural)]
pub enum PlotKind {
    Line,
    Rate,
}

/// A pattern that could not be compiled; it holds the pattern text.
#[derive(Debug)]
pub struct PatternError {
    pub pattern: String,
}

/// One hit of the correlation scan: the captured key, the metric name and its display kind.
pub type Hit = (Seq<char>, (Seq<char>, PlotKind));

/// The hits of one metric name against the patterns, in pattern order.
pub open spec fn hits_for(pats: Seq<(Seq<char>, PlotKind)>, name: Seq<char>) -> Seq<Hit>
    decreases pats.len(),
{
    if pats.len() == 0 {
        seq![]
    } else {
        let prev = hits_for(pats.drop_last(), name);
        let p = pats.last();
        match first_capture(p.0, name) {
            Some(k) => prev.push((k, (name, p.1))),
            None => prev,
        }
    }
}

/// The hits of all metric names, scanning names in order and patterns in order for each.
pub open spec fn hits(pats: Seq<(Seq<char>, PlotKind)>, names: Seq<Seq<char>>) -> Seq<Hit>
    decreases names.len(),
{
    if names.len() == 0 {
        seq![]
    } else {
        hits(pats, names.drop_last()) + hits_for(pats, names.last())
    }
}

/// The distinct captured keys of `h`, in order of first appearance.
pub open spec fn keys_in_order(h: Seq<Hit>) -> Seq<Seq<char>>
    decreases h.len(),
{
    if h.len() == 0 {
        seq![]
    } else {
        let d = keys_in_order(h.drop_last());
        if d.contains(h.last().0) {
            d
        } else {
            d.push(h.last().0)
        }
    }
}

/// The members of the hits with key `k`, in order.
pub open spec fn members(h: Seq<Hit>, k: Seq<char>) -> Seq<(Seq<char>, PlotKind)>
    decreases h.len(),
{
    if h.len() == 0 {
        seq![]
    } else {
        let m = members(h.drop_last(), k);
        if h.last().0 == k {
            m.push(h.last().1)
        } else {
            m
        }
    }
}

/// The groups that correlation yields: one per distinct captured key, in order of first
/// appearance, each holding its members in the order they were found.
pub open spec fn correlate(pats: Seq<(Seq<char>, PlotKind)>, names: Seq<Seq<char>>) -> Seq<
    Seq<(Seq<char>, PlotKind)>,
> {
    let h = hits(pats, names);
    keys_in_order(h).map_values(|k: Seq<char>| members(h, k))
}

pub open spec fn member_view(m: (String, PlotKind)) -> (Seq<char>, PlotKind) {
    (m.0@, m.1)
}

pub open spec fn group_view(g: Vec<(String, PlotKind)>) -> Seq<(Seq<char>, PlotKind)> {
    g@.map_values(|m: (String, PlotKind)| member_view(m))
}

pub open spec fn groups_view(gs: Vec<Vec<(String, PlotKind)>>) -> Seq<Seq<(Seq<char>, PlotKind)>> {
    gs@.map_values(|g: Vec<(String, PlotKind)>| group_view(g))
}

pub open spec fn names_view(names: &[&str]) -> Seq<Seq<char>> {
    names@.map_values(|s: &str| s@)
}

pub open spec fn hit_view(h: (String, String, PlotKind)) -> Hit {
    (h.0@, (h.1@, h.2))
}

/// An ordered list of patterns, each with the display kind of the metrics it matches. The
/// first capturing group of each pattern yields the key that correlates metrics.
#[derive(Debug)]
pub struct PatternGroup {
    patterns: Vec<(Regex, PlotKind)>,
}

impl View for PatternGroup {
    type V = Seq<(Seq<char>, PlotKind)>;

    closed spec fn view(&self) -> Seq<(Seq<char>, PlotKind)> {
        self.patterns@.map_values(|p: (Regex, PlotKind)| (regex_source(p.0), p.1))
    }
}

impl Default for PatternGroup {
    fn default() -> (r: Self)
        ensures
            r@ == Seq::<(Seq<char>, PlotKind)>::empty(),
    {
        Self::new()
    }
}

impl PatternGroup {
    pub fn new() -> (r: Self)
        ensures
            r@ == Seq::<(Seq<char>, PlotKind)>::empty(),
    {
        let r = PatternGroup { patterns: Vec::new() };
        assert(r@ =~= Seq::<(Seq<char>, PlotKind)>::empty());
        r
    }

    /// Adds a pattern, or reports that `regex` does not compile (the group is then dropped).
    pub fn try_pattern(self, regex: &str, kind: PlotKind) -> (r: Result<Self, PatternError>)
        ensures
            r is Ok <==> regex_compiles(regex@),
            r matches Ok(g) ==> g@ == self@.push((regex@, kind)),
            r matches Err(e) ==> e.pattern@ == regex@,
    {
        if is_valid_pattern(regex) {
            Ok(self.pattern(regex, kind))
        } else {
            Err(PatternError { pattern: regex.to_owned() })
        }
    }

    /// Adds a pattern whose first capturing group correlates metrics.
    ///
    /// The pattern must compile (see `is_valid_pattern`); where that is not known, use
    /// `try_pattern`, which reports an invalid pattern as an error. Called against this
    /// requirement with a pattern that does not compile, it returns the group unchanged.
    pub fn pattern(self, regex: &str, kind: PlotKind) -> (r: Self)
        requires
            regex_compiles(regex@),
        ensures
            r@ == self@.push((regex@, kind)),
    {
        match compile_regex(regex) {
            Ok(re) => {
                let mut g = self;
                g.patterns.push((re, kind));
                assert(g@ =~= self@.push((regex@, kind)));
                g
            },
            Err(_) => {
                proof {
                    assert(false);
                }
                self
            },
        }
    }
}


proof fn lemma_hits_step(pats: Seq<(Seq<char>, PlotKind)>, names: Seq<Seq<char>>, i: int)
    requires
        0 <= i < names.len(),
    ensures
        hits(pats, names.take(i + 1)) == hits(pats, names.take(i)) + hits_for(pats, names[i]),
{
    assert(names.take(i + 1).drop_last() =~= names.take(i));
}

proof fn lemma_hits_for_step(pats: Seq<(Seq<char>, PlotKind)>, name: Seq<char>, j: int)
    requires
        0 <= j < pats.len(),
    ensures
        hits_for(pats.take(j + 1), name) == match first_capture(pats[j].0, name) {
            Some(k) => hits_for(pats.take(j), name).push((k, (name, pats[j].1))),
            None => hits_for(pats.take(j), name),
        },
{
    assert(pats.take(j + 1).drop_last() =~= pats.take(j));
}

proof fn lemma_keys_step(h: Seq<Hit>, t: int)
    requires
        0 <= t < h.len(),
    ensures
        keys_in_order(h.take(t + 1)) == (if keys_in_order(h.take(t)).contains(h[t].0) {
            keys_in_order(h.take(t))
        } else {
            keys_in_order(h.take(t)).push(h[t].0)
        }),
{
    assert(h.take(t + 1).drop_last() =~= h.take(t));
}

proof fn lemma_members_step(h: Seq<Hit>, k: Seq<char>, t: int)
    requires
        0 <= t < h.len(),
    ensures
        members(h.take(t + 1), k) == (if h[t].0 == k {
            members(h.take(t), k).push(h[t].1)
        } else {
            members(h.take(t), k)
        }),
{
    assert(h.take(t + 1).drop_last() =~= h.take(t));
}

fn contains_key(keys: &Vec<String>, k: &String) -> (r: bool)
    ensures
        r == keys@.map_values(|s: String| s@).contains(k@),
{
    let ghost kv = keys@.map_values(|s: String| s@);
    let mut i: usize = 0;
    while i < keys.len()
        invariant
            0 <= i <= keys.len(),
            kv == keys@.map_values(|s: String| s@),
            forall|j: int| 0 <= j < i ==> kv[j] != k@,
        decreases keys.len() - i,
    {
        if keys[i] == *k {
            assert(kv[i as int] == k@);
            return true;
        }
        i += 1;
    }
    false
}

impl PatternGroup {
    /// Groups the metric names by the key that the patterns capture from them.
    ///
    /// Each name is tried against every pattern in order; a match whose first capturing group
    /// took part adds the name, with that pattern's kind, to the group of the captured text.
    /// Groups come in order of their key's first appearance; members keep the order in which
    /// they were found. A name may land in several groups, or in none.
    pub fn apply(&self, metrics: &[&str]) -> (r: Vec<Vec<(String, PlotKind)>>)
        ensures
            groups_view(r) == correlate(self@, names_view(metrics)),
    {
        let ghost pats = self@;
        let ghost names = names_view(metrics);
        let mut found: Vec<(String, String, PlotKind)> = Vec::new();
        let mut i: usize = 0;
        while i < metrics.len()
            invariant
                0 <= i <= metrics.len(),
                pats == self@,
                names == names_view(metrics),
                found@.map_values(|h: (String, String, PlotKind)| hit_view(h)) == hits(
                    pats,
                    names.take(i as int),
                ),
            decreases metrics.len() - i,
        {
            let name: &str = metrics[i];
            let ghost before = found@.map_values(|h: (String, String, PlotKind)| hit_view(h));
            let mut j: usize = 0;
            while j < self.patterns.len()
                invariant
                    0 <= i < metrics.len(),
                    0 <= j <= self.patterns.len(),
                    pats == self@,
                    names == names_view(metrics),
                    name@ == names[i as int],
                    found@.map_values(|h: (String, String, PlotKind)| hit_view(h)) == before
                        + hits_for(pats.take(j as int), names[i as int]),
                decreases self.patterns.len() - j,
            {
                proof {
                    lemma_hits_for_step(pats, names[i as int], j as int);
                }
                let ghost prev = found@;
                match capture_first(&self.patterns[j].0, name) {
                    Some(k) => {
                        found.push((k, name.to_owned(), self.patterns[j].1));
                        assert(found@.map_values(|h: (String, String, PlotKind)| hit_view(h))
                            =~= prev.map_values(|h: (String, String, PlotKind)| hit_view(h)).push(
                            hit_view(found@.last()),
                        ));
                    },
                    None => {},
                }
                j += 1;
            }
            proof {
                assert(pats.take(self.patterns.len() as int) =~= pats);
                lemma_hits_step(pats, names, i as int);
            }
            i += 1;
        }
        assert(names.take(metrics.len() as int) =~= names);
        let ghost h = hits(pats, names);
        assert(h == found@.map_values(|x: (String, String, PlotKind)| hit_view(x)));

        // the distinct keys, in order of first appearance
        let mut keys: Vec<String> = Vec::new();
        let mut t: usize = 0;
        while t < found.len()
            invariant
                0 <= t <= found.len(),
                h == found@.map_values(|x: (String, String, PlotKind)| hit_view(x)),
                keys@.map_values(|s: String| s@) == keys_in_order(h.take(t as int)),
            decreases found.len() - t,
        {
            proof {
                lemma_keys_step(h, t as int);
            }
            if !contains_key(&keys, &found[t].0) {
                let ghost prev = keys@;
                keys.push(found[t].0.clone());
                assert(keys@.map_values(|s: String| s@) =~= prev.map_values(|s: String| s@).push(
                    h[t as int].0,
                ));
            }
            t += 1;
        }
        assert(h.take(found.len() as int) =~= h);
        let ghost ks = keys_in_order(h);

        let mut out: Vec<Vec<(String, PlotKind)>> = Vec::new();
        let mut g: usize = 0;
        while g < keys.len()
            invariant
                0 <= g <= keys.len(),
                h == found@.map_values(|x: (String, String, PlotKind)| hit_view(x)),
                keys@.map_values(|s: String| s@) == ks,
                groups_view(out) == ks.take(g as int).map_values(|k: Seq<char>| members(h, k)),
            decreases keys.len() - g,
        {
            let ghost k = ks[g as int];
            let mut grp: Vec<(String, PlotKind)> = Vec::new();
            let mut t: usize = 0;
            while t < found.len()
                invariant
                    0 <= g < keys.len(),
                    0 <= t <= found.len(),
                    h == found@.map_values(|x: (String, String, PlotKind)| hit_view(x)),
                    keys@.map_values(|s: String| s@) == ks,
                    k == ks[g as int],
                    group_view(grp) == members(h.take(t as int), k),
                decreases found.len() - t,
            {
                proof {
                    lemma_members_step(h, k, t as int);
                }
                assert(keys[g as int]@ == k);
                if found[t].0 == keys[g] {
                    let ghost prev = grp@;
                    grp.push((found[t].1.clone(), found[t].2));
                    assert(group_view(grp) =~= prev.map_values(
                        |m: (String, PlotKind)| member_view(m),
                    ).push(h[t as int].1));
                }
                t += 1;
            }
            assert(h.take(found.len() as int) =~= h);
            let ghost prev = out@;
            out.push(grp);
            assert(groups_view(out) =~= prev.map_values(
                |gg: Vec<(String, PlotKind)>| group_view(gg),
            ).push(members(h, k)));
            assert(groups_view(out) =~= ks.take(g + 1).map_values(|k: Seq<char>| members(h, k)));
            g += 1;
        }
        assert(ks.take(keys.len() as int) =~= ks);
        out
    }
}

} // verus!
