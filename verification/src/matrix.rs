//! Time series of signal rows: one row per measurement time, with its metadata.
//!
//! Rows are stored column-wise (times, rows, sensor counts, front flags); the row payload is
//! generic, and times are epoch seconds.

use vstd::prelude::*;

verus! {

/// Time-series matrix: one timestamp, one row of signal scores, one sensor count and one
/// front flag per measurement.
pub struct SignalMatrix<R> {
    /// Epoch seconds per row (increasing).
    pub timestamps: Vec<i64>,
    /// Signal scores per row.
    pub data: Vec<R>,
    /// Sensor count per row (0 if unknown).
    pub sensor_count: Vec<u32>,
    /// Whether a pollution front was detected at this time.
    pub front_detected: Vec<bool>,
}

/// Whether times never decrease.
pub open spec fn nondecreasing(ts: Seq<i64>) -> bool {
    forall|i: int, j: int| 0 <= i <= j < ts.len() ==> ts[i] <= ts[j]
}

/// Length of the leading run of times below `x`; for nondecreasing times, the position of the
/// first time at or after `x`.
pub open spec fn lower_index(ts: Seq<i64>, x: int) -> nat
    decreases ts.len(),
{
    if ts.len() == 0 {
        0
    } else if ts[0] >= x {
        0
    } else {
        1 + lower_index(ts.drop_first(), x)
    }
}

/// A position `k` after exactly the times below `x` is their leading run.
pub proof fn lemma_lower_index(ts: Seq<i64>, x: int, k: int)
    requires
        0 <= k <= ts.len(),
        forall|i: int| 0 <= i < k ==> ts[i] < x,
        k == ts.len() || ts[k] >= x,
    ensures
        lower_index(ts, x) == k,
    decreases k,
{
    if k > 0 {
        let t = ts.drop_first();
        assert forall|i: int| 0 <= i < k - 1 implies t[i] < x by {
            assert(t[i] == ts[i + 1]);
        }
        if k - 1 < t.len() {
            assert(t[k - 1] == ts[k]);
        }
        lemma_lower_index(t, x, k - 1);
    }
}

/// A leading run is no longer than the times, and everything in it is below `x`.
pub proof fn lemma_lower_index_bounds(ts: Seq<i64>, x: int)
    ensures
        lower_index(ts, x) <= ts.len(),
        forall|i: int| 0 <= i < lower_index(ts, x) ==> ts[i] < x,
        lower_index(ts, x) < ts.len() ==> ts[lower_index(ts, x) as int] >= x,
    decreases ts.len(),
{
    if ts.len() > 0 && ts[0] < x {
        let t = ts.drop_first();
        lemma_lower_index_bounds(t, x);
        assert forall|i: int| 0 <= i < lower_index(ts, x) implies ts[i] < x by {
            if i > 0 {
                assert(ts[i] == t[i - 1]);
            }
        }
    }
}

/// For nondecreasing times, raising the threshold never shortens the leading run.
pub proof fn lemma_lower_index_monotone(ts: Seq<i64>, x: int, y: int)
    requires
        nondecreasing(ts),
        x <= y,
    ensures
        lower_index(ts, x) <= lower_index(ts, y),
{
    lemma_lower_index_bounds(ts, x);
    lemma_lower_index_bounds(ts, y);
    let a = lower_index(ts, x);
    let b = lower_index(ts, y);
    if b < a {
        assert(ts[b as int] < x);
        assert(ts[b as int] >= y);
    }
}

impl<R> SignalMatrix<R> {
    /// The four columns have one entry per row.
    pub open spec fn wf(&self) -> bool {
        &&& self.data@.len() == self.timestamps@.len()
        &&& self.sensor_count@.len() == self.timestamps@.len()
        &&& self.front_detected@.len() == self.timestamps@.len()
    }

    /// Number of rows, as a mathematical integer.
    pub open spec fn rows(&self) -> nat {
        self.timestamps@.len()
    }

    /// Rows `lo..hi` of every column.
    pub open spec fn is_window_of(&self, other: &Self, lo: int, hi: int) -> bool {
        &&& 0 <= lo <= hi <= other.rows()
        &&& self.timestamps@ == other.timestamps@.subrange(lo, hi)
        &&& self.data@ == other.data@.subrange(lo, hi)
        &&& self.sensor_count@ == other.sensor_count@.subrange(lo, hi)
        &&& self.front_detected@ == other.front_detected@.subrange(lo, hi)
    }

    /// Empty matrix.
    pub fn new() -> (m: Self)
        ensures
            m.wf(),
            m.rows() == 0,
    {
        SignalMatrix {
            timestamps: Vec::new(),
            data: Vec::new(),
            sensor_count: Vec::new(),
            front_detected: Vec::new(),
        }
    }

    /// Empty matrix with room reserved for `cap` rows.
    pub fn with_capacity(cap: usize) -> (m: Self)
        ensures
            m.wf(),
            m.rows() == 0,
    {
        SignalMatrix {
            timestamps: Vec::with_capacity(cap),
            data: Vec::with_capacity(cap),
            sensor_count: Vec::with_capacity(cap),
            front_detected: Vec::with_capacity(cap),
        }
    }

    /// Number of rows.
    pub fn len(&self) -> (n: usize)
        ensures
            n == self.rows(),
    {
        self.timestamps.len()
    }

    /// Whether there is no row.
    pub fn is_empty(&self) -> (b: bool)
        ensures
            b == (self.rows() == 0),
    {
        self.timestamps.len() == 0
    }

    /// Appends a row with metadata.
    pub fn push_with_meta(&mut self, ts: i64, row: R, sensors: u32, front: bool)
        ensures
            old(self).wf() ==> final(self).wf(),
            final(self).timestamps@ == old(self).timestamps@.push(ts),
            final(self).data@ == old(self).data@.push(row),
            final(self).sensor_count@ == old(self).sensor_count@.push(sensors),
            final(self).front_detected@ == old(self).front_detected@.push(front),
    {
        self.timestamps.push(ts);
        self.data.push(row);
        self.sensor_count.push(sensors);
        self.front_detected.push(front);
    }

    /// Appends a row; its sensor count is unknown (0) and no front is flagged.
    pub fn push(&mut self, ts: i64, row: R)
        ensures
            old(self).wf() ==> final(self).wf(),
            final(self).timestamps@ == old(self).timestamps@.push(ts),
            final(self).data@ == old(self).data@.push(row),
            final(self).sensor_count@ == old(self).sensor_count@.push(0),
            final(self).front_detected@ == old(self).front_detected@.push(false),
    {
        self.push_with_meta(ts, row, 0, false);
    }

    /// Keeps only the last `max_rows` rows (all of them when there are no more).
    pub fn compact(&mut self, max_rows: usize)
        requires
            old(self).wf(),
        ensures
            final(self).wf(),
            old(self).rows() <= max_rows ==> *final(self) == *old(self),
            old(self).rows() > max_rows ==> final(self).is_window_of(
                old(self),
                old(self).rows() - max_rows,
                old(self).rows() as int,
            ),
    {
        let n = self.timestamps.len();
        if n <= max_rows {
            return;
        }
        let drop = n - max_rows;
        let ts = self.timestamps.split_off(drop);
        self.timestamps = ts;
        let data = self.data.split_off(drop);
        self.data = data;
        let sc = self.sensor_count.split_off(drop);
        self.sensor_count = sc;
        let fd = self.front_detected.split_off(drop);
        self.front_detected = fd;
    }
}

impl<R: Copy> SignalMatrix<R> {
    /// The most recent row and its time, if any.
    pub fn latest(&self) -> (r: Option<(i64, R)>)
        requires
            self.rows() == 0 || self.data@.len() >= self.rows(),
        ensures
            r is None <==> self.rows() == 0,
            r matches Some(p) ==> p.0 == self.timestamps@.last()
                && p.1 == self.data@[self.rows() - 1],
    {
        let n = self.timestamps.len();
        if n == 0 {
            return None;
        }
        Some((self.timestamps[n - 1], self.data[n - 1]))
    }

    /// Rows `lo..hi` copied into a new matrix.
    fn window(&self, lo: usize, hi: usize) -> (m: Self)
        requires
            self.wf(),
            lo <= hi <= self.rows(),
        ensures
            m.wf(),
            m.is_window_of(self, lo as int, hi as int),
    {
        let mut m = Self::new();
        let mut i = lo;
        while i < hi
            invariant
                self.wf(),
                lo <= i <= hi <= self.rows(),
                m.wf(),
                m.timestamps@ == self.timestamps@.subrange(lo as int, i as int),
                m.data@ == self.data@.subrange(lo as int, i as int),
                m.sensor_count@ == self.sensor_count@.subrange(lo as int, i as int),
                m.front_detected@ == self.front_detected@.subrange(lo as int, i as int),
            decreases hi - i,
        {
            m.push_with_meta(self.timestamps[i], self.data[i], self.sensor_count[i], self.front_detected[i]);
            assert(self.timestamps@.subrange(lo as int, i + 1) == self.timestamps@.subrange(lo as int, i as int).push(self.timestamps@[i as int]));
            assert(self.data@.subrange(lo as int, i + 1) == self.data@.subrange(lo as int, i as int).push(self.data@[i as int]));
            assert(self.sensor_count@.subrange(lo as int, i + 1) == self.sensor_count@.subrange(lo as int, i as int).push(self.sensor_count@[i as int]));
            assert(self.front_detected@.subrange(lo as int, i + 1) == self.front_detected@.subrange(lo as int, i as int).push(self.front_detected@[i as int]));
            i = i + 1;
        }
        m
    }

    /// Rows whose time lies in `[start_ts, end_ts)`, as a new matrix.
    pub fn slice(&self, start_ts: i64, end_ts: i64) -> (m: Self)
        requires
            self.wf(),
            nondecreasing(self.timestamps@),
            lower_index(self.timestamps@, start_ts as int) <= lower_index(self.timestamps@, end_ts as int),
        ensures
            m.wf(),
            m.is_window_of(
                self,
                lower_index(self.timestamps@, start_ts as int) as int,
                lower_index(self.timestamps@, end_ts as int) as int,
            ),
    {
        let lo = first_at_or_after(&self.timestamps, start_ts as i128);
        let hi = first_at_or_after(&self.timestamps, end_ts as i128);
        proof {
            lemma_lower_index_bounds(self.timestamps@, end_ts as int);
        }
        self.window(lo, hi)
    }

    /// Rows of the last `h` hours, counted back from the most recent row (which is included).
    pub fn last_hours(&self, h: u32) -> (m: Self)
        requires
            self.wf(),
            nondecreasing(self.timestamps@),
        ensures
            m.wf(),
            self.rows() == 0 ==> m.rows() == 0,
            self.rows() > 0 ==> m.is_window_of(
                self,
                lower_index(self.timestamps@, self.timestamps@.last() - h * 3600) as int,
                self.rows() as int,
            ),
    {
        let n = self.timestamps.len();
        if n == 0 {
            return Self::new();
        }
        let end = self.timestamps[n - 1];
        let start: i128 = end as i128 - (h as i128) * 3600;
        let lo = first_at_or_after(&self.timestamps, start);
        proof {
            lemma_lower_index_bounds(self.timestamps@, start as int);
        }
        self.window(lo, n)
    }

    /// Rows of the last `d` days, counted back from the most recent row.
    pub fn last_days(&self, d: u32) -> (m: Self)
        requires
            self.wf(),
            nondecreasing(self.timestamps@),
            d * 24 <= u32::MAX,
        ensures
            m.wf(),
            self.rows() == 0 ==> m.rows() == 0,
            self.rows() > 0 ==> m.is_window_of(
                self,
                lower_index(self.timestamps@, self.timestamps@.last() - d * 24 * 3600) as int,
                self.rows() as int,
            ),
    {
        self.last_hours(d * 24)
    }
}

/// Position of the first time at or after `x` in nondecreasing times (binary search).
fn first_at_or_after(ts: &Vec<i64>, x: i128) -> (k: usize)
    requires
        nondecreasing(ts@),
    ensures
        k == lower_index(ts@, x as int),
{
    let mut lo: usize = 0;
    let mut hi: usize = ts.len();
    while lo < hi
        invariant
            nondecreasing(ts@),
            0 <= lo <= hi <= ts@.len(),
            forall|i: int| 0 <= i < lo ==> ts@[i] < x,
            forall|i: int| hi <= i < ts@.len() ==> ts@[i] >= x,
        decreases hi - lo,
    {
        let mid = lo + (hi - lo) / 2;
        if (ts[mid] as i128) < x {
            lo = mid + 1;
        } else {
            hi = mid;
        }
    }
    proof {
        lemma_lower_index(ts@, x as int, lo as int);
    }
    lo
}

impl<R> Default for SignalMatrix<R> {
    fn default() -> (m: Self)
        ensures
            m.wf(),
            m.rows() == 0,
    {
        Self::new()
    }
}

/// What a time window holds: with nondecreasing times, `slice` gives back exactly the rows whose
/// time lies in `[start, end)`, in their order.
pub proof fn law_slice_is_time_window<R>(m: SignalMatrix<R>, s: SignalMatrix<R>, start: i64, end: i64)
    requires
        m.wf(),
        nondecreasing(m.timestamps@),
        start <= end,
        s.is_window_of(&m, lower_index(m.timestamps@, start as int) as int, lower_index(m.timestamps@, end as int) as int),
    ensures
        forall|i: int| 0 <= i < s.rows() ==> start <= #[trigger] s.timestamps@[i] < end,
        forall|j: int| 0 <= j < m.rows() && start <= #[trigger] m.timestamps@[j] < end ==>
            exists|i: int| 0 <= i < s.rows() && s.timestamps@[i] == m.timestamps@[j] && s.data@[i] == m.data@[j],
{
    let ts = m.timestamps@;
    let lo = lower_index(ts, start as int) as int;
    let hi = lower_index(ts, end as int) as int;
    lemma_lower_index_bounds(ts, start as int);
    lemma_lower_index_bounds(ts, end as int);
    assert forall|i: int| 0 <= i < s.rows() implies start <= #[trigger] s.timestamps@[i] < end by {
        assert(s.timestamps@[i] == ts[lo + i]);
        if lo < ts.len() {
            assert(ts[lo] >= start);
            assert(ts[lo] <= ts[lo + i]);
        }
    }
    assert forall|j: int| 0 <= j < m.rows() && start <= #[trigger] m.timestamps@[j] < end implies
        exists|i: int| 0 <= i < s.rows() && s.timestamps@[i] == m.timestamps@[j] && s.data@[i] == m.data@[j] by {
        if j < lo {
            assert(ts[j] < start);
        }
        if j >= hi {
            assert(ts[hi] >= end);
            assert(ts[hi] <= ts[j]);
        }
        assert(s.timestamps@[j - lo] == ts[j]);
        assert(s.data@[j - lo] == m.data@[j]);
    }
}

/// What a write is read back as: after a push, the latest row is the row pushed, and every
/// earlier row is left as it was.
pub proof fn law_push_then_latest<R>(before: SignalMatrix<R>, after: SignalMatrix<R>, ts: i64, row: R)
    requires
        after.timestamps@ == before.timestamps@.push(ts),
        after.data@ == before.data@.push(row),
    ensures
        after.rows() == before.rows() + 1,
        after.timestamps@.last() == ts && after.data@.last() == row,
        forall|i: int| 0 <= i < before.rows() ==> #[trigger] after.timestamps@[i] == before.timestamps@[i],
        forall|i: int| 0 <= i < before.data@.len() ==> #[trigger] after.data@[i] == before.data@[i],
{
}

/// Compacting never loses the most recent row: when at least one row is kept, the latest time and
/// row are those of before.
pub proof fn law_compact_keeps_latest<R>(before: SignalMatrix<R>, after: SignalMatrix<R>, max_rows: int)
    requires
        before.wf(),
        before.rows() > 0,
        max_rows > 0,
        before.rows() <= max_rows ==> after == before,
        before.rows() > max_rows ==> after.is_window_of(&before, before.rows() - max_rows, before.rows() as int),
    ensures
        after.rows() == if before.rows() <= max_rows { before.rows() as int } else { max_rows },
        after.timestamps@.last() == before.timestamps@.last(),
        after.data@.last() == before.data@.last(),
{
}

} // verus!
