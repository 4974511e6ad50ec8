//! Locating a value in the half-open bin `[stations[i], stations[i + 1])`
//! of an ordered sequence of stations.
use vstd::prelude::*;

verus! {

/// Whether each station is smaller than every later one.
pub open spec fn strictly_increasing(s: Seq<i32>) -> bool {
    forall|i: int, j: int| 0 <= i < j < s.len() ==> s[i] < s[j]
}

/// Whether `v` lies in the bin that starts at station `i`.
pub open spec fn in_bin(s: Seq<i32>, v: i32, i: int) -> bool {
    0 <= i && i + 1 < s.len() && s[i] <= v && v < s[i + 1]
}

/// Whether `v` lies outside every bin: too few stations, below the first one,
/// or at or beyond the last one.
pub open spec fn out_of_range(s: Seq<i32>, v: i32) -> bool {
    s.len() < 2 || v < s[0] || v >= s[s.len() - 1]
}

/// The index that bisection of `s` between `lower` and `upper` settles on
/// for the value `v`.
pub open spec fn bisect(s: Seq<i32>, v: i32, lower: int, upper: int) -> int
    decreases upper - lower,
{
    if upper - lower <= 1 {
        lower
    } else {
        let mid = (upper + lower) / 2;
        if v >= s[mid] {
            bisect(s, v, mid, upper)
        } else {
            bisect(s, v, lower, mid)
        }
    }
}

/// The bin of `v` among the stations `s`, if there is one.
pub open spec fn station_of(s: Seq<i32>, v: i32) -> Option<usize> {
    if out_of_range(s, v) {
        None
    } else {
        Some(bisect(s, v, 0, s.len() as int) as usize)
    }
}

/// Bisection from a bracket `s[lower] <= v`, `v < s[upper]` (or `upper` past the
/// end, with `v` below the last station) settles on a bin that holds `v`.
proof fn lemma_bisect_in_bin(s: Seq<i32>, v: i32, lower: int, upper: int)
    requires
        0 <= lower < upper <= s.len(),
        s[lower] <= v,
        upper == s.len() || v < s[upper],
        v < s[s.len() - 1],
    ensures
        in_bin(s, v, bisect(s, v, lower, upper)),
    decreases upper - lower,
{
    if upper - lower > 1 {
        let mid = (upper + lower) / 2;
        if v >= s[mid] {
            lemma_bisect_in_bin(s, v, mid, upper);
        } else {
            lemma_bisect_in_bin(s, v, lower, mid);
        }
    }
}

/// Among strictly increasing stations a value lies in at most one bin.
pub proof fn lemma_bin_unique(s: Seq<i32>, v: i32, i: int, j: int)
    requires
        strictly_increasing(s),
        in_bin(s, v, i),
        in_bin(s, v, j),
    ensures
        i == j,
{
    if i < j {
        assert(s[i + 1] <= s[j]);
    } else if j < i {
        assert(s[j + 1] <= s[i]);
    }
}

/// For strictly increasing stations, at least two of them, and a value from
/// the first station up to (not including) the last one, the lookup finds the
/// bin `[s[i], s[i + 1])` that holds the value, and no other bin holds it.
pub proof fn lemma_station_brackets(s: Seq<i32>, v: i32)
    requires
        strictly_increasing(s),
        2 <= s.len() <= usize::MAX,
        s[0] <= v < s[s.len() - 1],
    ensures
        station_of(s, v) matches Some(i) && in_bin(s, v, i as int)
            && forall|j: int| in_bin(s, v, j) ==> j == i,
{
    lemma_bisect_in_bin(s, v, 0, s.len() as int);
    let i = bisect(s, v, 0, s.len() as int);
    assert forall|j: int| in_bin(s, v, j) implies j == i by {
        lemma_bin_unique(s, v, i, j);
    }
}

/// For strictly increasing stations, at least two of them, the first station
/// lies in bin `0` and the second-to-last station in the last bin, `len - 2`.
pub proof fn lemma_boundary_stations(s: Seq<i32>)
    requires
        strictly_increasing(s),
        2 <= s.len() <= usize::MAX,
    ensures
        station_of(s, s[0]) == Some(0usize),
        station_of(s, s[s.len() - 2]) == Some((s.len() - 2) as usize),
{
    let n = s.len() as int;
    lemma_station_brackets(s, s[0]);
    assert(in_bin(s, s[0], 0));
    lemma_station_brackets(s, s[n - 2]);
    assert(in_bin(s, s[n - 2], n - 2));
}

/// Finds the bin of a value among ordered stations, which it borrows.
#[derive(Debug)]
pub struct Histogram<'a> {
    stations: &'a [i32],
}

impl<'a> Histogram<'a> {
    /// The stations, as a sequence.
    pub closed spec fn view(&self) -> Seq<i32> {
        self.stations@
    }

    /// Makes a finder over the given stations, which are taken as they are.
    pub fn new(stations: &'a [i32]) -> (r: Histogram<'a>)
        ensures
            r@ == stations@,
    {
        Histogram { stations }
    }

    /// The stations this finder was made with.
    pub fn stations(&self) -> (r: &'a [i32])
        ensures
            r@ == self@,
    {
        self.stations
    }

    /// Returns the index `i` of the bin `[stations[i], stations[i + 1])` that
    /// holds `val`, or `None` when there are fewer than two stations or `val`
    /// is below the first station or at or above the last one.
    pub fn find_station(&self, val: i32) -> (r: Option<usize>)
        ensures
            r == station_of(self@, val),
            r is None <==> out_of_range(self@, val),
            r matches Some(i) ==> in_bin(self@, val, i as int),
    {
        let s = self.stations;
        let n = s.len();
        if n < 2 {
            return None;
        }
        if val < s[0] {
            return None;
        }
        if val >= s[n - 1] {
            return None;
        }
        let mut upper: usize = n;
        let mut lower: usize = 0;
        while upper - lower > 1
            invariant
                n == s@.len(),
                n >= 2,
                lower < upper <= n,
                s@[lower as int] <= val,
                upper == n || val < s@[upper as int],
                val < s@[n - 1],
                bisect(s@, val, lower as int, upper as int) == bisect(s@, val, 0, n as int),
            decreases upper - lower,
        {
            let mid: usize = lower + (upper - lower) / 2;
            assert(mid == (upper + lower) / 2);
            if val >= s[mid] {
                lower = mid;
            } else {
                upper = mid;
            }
        }
        assert(upper < n);
        Some(lower)
    }
}

} // verus!
