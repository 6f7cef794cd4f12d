use vstd::prelude::*;

verus! {

/// Prices and statistics are fixed-point numbers: `SCALE` units make one.
pub const SCALE: i128 = 100_000_000;

/// Largest magnitude of a fixed-point value held in a series.
pub const MAX_FIXED: i128 = 1_000_000_000_000_000_000_000_000_000_000_000_000;

/// One observation: milliseconds since the epoch and a fixed-point price.
#[derive(Clone, Copy, Debug, PartialEq, Eq, Structural)]
pub struct Sample {
    pub timestamp: i64,
    pub price: i128,
}

pub open spec fn in_fixed_range(v: i128) -> bool {
    -MAX_FIXED <= v <= MAX_FIXED
}

/// Timestamps never decrease along the sequence.
pub open spec fn time_ordered(h: Seq<Sample>) -> bool {
    forall|i: int, j: int| 0 <= i <= j < h.len() ==> #[trigger] h[i].timestamp <= #[trigger] h[j].timestamp
}

pub open spec fn prices_in_range(h: Seq<Sample>) -> bool {
    forall|i: int| 0 <= i < h.len() ==> in_fixed_range(#[trigger] h[i].price)
}

/// Appending `s` to a window of capacity `w`: the oldest sample leaves once the
/// window would hold more than `w`.
pub open spec fn window_push(h: Seq<Sample>, s: Sample, w: nat) -> Seq<Sample> {
    let g = h.push(s);
    if g.len() > w {
        g.subrange(g.len() - w, g.len() as int)
    } else {
        g
    }
}

/// The window of capacity `w` after pushing every sample of `s`, in order, onto
/// an empty one.
pub open spec fn window_after(w: nat, s: Seq<Sample>) -> Seq<Sample>
    decreases s.len(),
{
    if s.len() == 0 {
        Seq::empty()
    } else {
        window_push(window_after(w, s.drop_last()), s.last(), w)
    }
}

pub open spec fn min_nat(a: nat, b: nat) -> nat {
    if a <= b { a } else { b }
}

/// Pushing samples one by one into a window of capacity `w` leaves exactly
/// the latest `min(n, w)` of them, oldest first.
pub proof fn lemma_window_keeps_latest(w: nat, s: Seq<Sample>)
    ensures
        window_after(w, s).len() == min_nat(s.len(), w),
        window_after(w, s) == s.subrange(s.len() - min_nat(s.len(), w), s.len() as int),
    decreases s.len(),
{
    if s.len() > 0 {
        let p = s.drop_last();
        lemma_window_keeps_latest(w, p);
        let h = window_after(w, p);
        let g = h.push(s.last());
        let m = min_nat(p.len(), w);
        assert(g =~= s.subrange(s.len() - 1 - m, s.len() as int));
        if g.len() > w {
            assert(g.subrange(g.len() - w, g.len() as int) =~= s.subrange(s.len() - w, s.len() as int));
        }
    } else {
        assert(s.subrange(0, 0) =~= Seq::<Sample>::empty());
    }
}

/// However many samples are pushed, the window never holds more than `w`.
pub proof fn lemma_window_bounded(w: nat, s: Seq<Sample>)
    ensures
        window_after(w, s).len() <= w,
{
    lemma_window_keeps_latest(w, s);
}

/// A window of time-ordered samples stays time-ordered after a push of a sample
/// no older than its newest one.
pub proof fn lemma_window_push_ordered(h: Seq<Sample>, s: Sample, w: nat)
    requires
        time_ordered(h),
        h.len() > 0 ==> h.last().timestamp <= s.timestamp,
    ensures
        time_ordered(window_push(h, s, w)),
{
    let g = h.push(s);
    assert(time_ordered(g)) by {
        assert forall|i: int, j: int| 0 <= i <= j < g.len() implies #[trigger] g[i].timestamp <= #[trigger] g[j].timestamp by {
            if j == h.len() && i < h.len() {
                assert(h[i].timestamp <= h[h.len() - 1].timestamp);
            }
        }
    }
}


/// The latest statistics of one symbol, as the quote service reports them.
#[derive(Clone, Copy, Debug, PartialEq, Eq, Structural)]
pub struct Snapshot {
    pub price: i128,
    pub change_24h: i128,
    pub high_24h: i128,
    pub low_24h: i128,
    pub volume_24h: i128,
}

impl Snapshot {
    pub open spec fn wf(&self) -> bool {
        &&& in_fixed_range(self.price)
        &&& in_fixed_range(self.change_24h)
        &&& in_fixed_range(self.high_24h)
        &&& in_fixed_range(self.low_24h)
        &&& in_fixed_range(self.volume_24h)
    }
}


pub open spec fn min_price(h: Seq<Sample>) -> int
    decreases h.len(),
{
    if h.len() <= 1 {
        if h.len() == 1 { h[0].price as int } else { 0 }
    } else {
        let m = min_price(h.drop_last());
        if h.last().price < m { h.last().price as int } else { m }
    }
}

pub open spec fn max_price(h: Seq<Sample>) -> int
    decreases h.len(),
{
    if h.len() <= 1 {
        if h.len() == 1 { h[0].price as int } else { 0 }
    } else {
        let m = max_price(h.drop_last());
        if h.last().price > m { h.last().price as int } else { m }
    }
}

/// Half the width of the range drawn around a flat series at `c`: one hundredth
/// of its magnitude, and at least one unit.
pub open spec fn pad_for(c: int) -> int {
    let a = if c < 0 { -c } else { c };
    if a / 100 >= 1 { a / 100 } else { 1 }
}

/// The price axis of a chart of `h`: the lowest and highest price where they
/// differ, else a range padded around the one price (or around zero).
pub open spec fn bounds_of(h: Seq<Sample>) -> (int, int) {
    if h.len() >= 2 && min_price(h) < max_price(h) {
        (min_price(h), max_price(h))
    } else {
        let c = if h.len() == 0 { 0 } else { h[0].price as int };
        (c - pad_for(c), c + pad_for(c))
    }
}

proof fn lemma_extremes_bounded(h: Seq<Sample>)
    requires
        h.len() >= 1,
    ensures
        forall|i: int| 0 <= i < h.len() ==> min_price(h) <= #[trigger] h[i].price <= max_price(h),
        exists|i: int| 0 <= i < h.len() && min_price(h) == #[trigger] h[i].price,
        exists|i: int| 0 <= i < h.len() && max_price(h) == #[trigger] h[i].price,
    decreases h.len(),
{
    if h.len() > 1 {
        let p = h.drop_last();
        lemma_extremes_bounded(p);
        assert forall|i: int| 0 <= i < h.len() implies min_price(h) <= #[trigger] h[i].price <= max_price(h) by {
            if i < p.len() {
                assert(h[i] == p[i]);
            }
        }
        let a = choose|i: int| 0 <= i < p.len() && min_price(p) == #[trigger] p[i].price;
        let b = choose|i: int| 0 <= i < p.len() && max_price(p) == #[trigger] p[i].price;
        assert(h[a] == p[a]);
        assert(h[b] == p[b]);
        assert(h[h.len() - 1] == h.last());
    } else {
        assert(h[0].price == min_price(h));
    }
}

/// One tracked symbol: its rolling price history and its latest statistics.
pub struct CoinData {
    pub symbol: String,
    pub display_name: String,
    pub price_history: Vec<Sample>,
    pub window: usize,
    pub price: i128,
    pub change_24h: i128,
    pub high_24h: i128,
    pub low_24h: i128,
    pub volume_24h: i128,
}

/// The time given to a sample taken at `now`: never older than the newest one
/// already held, so that the history stays ordered when the clock steps back.
pub open spec fn stamp_for(h: Seq<Sample>, now: i64) -> i64 {
    if h.len() > 0 && h.last().timestamp > now {
        h.last().timestamp
    } else {
        now
    }
}

impl CoinData {
    pub open spec fn history(&self) -> Seq<Sample> {
        self.price_history@
    }

    pub open spec fn snapshot(&self) -> Snapshot {
        Snapshot {
            price: self.price,
            change_24h: self.change_24h,
            high_24h: self.high_24h,
            low_24h: self.low_24h,
            volume_24h: self.volume_24h,
        }
    }

    pub open spec fn wf(&self) -> bool {
        &&& self.history().len() <= self.window
        &&& time_ordered(self.history())
        &&& prices_in_range(self.history())
        &&& self.snapshot().wf()
    }

    /// A series with no samples and zero statistics, keeping at most `window`
    /// samples (none at all for a window of zero).
    pub fn new(symbol: String, display_name: String, window: usize) -> (r: CoinData)
        ensures
            r.wf(),
            r.symbol@ == symbol@,
            r.display_name@ == display_name@,
            r.window == window,
            r.history().len() == 0,
            r.snapshot() == (Snapshot { price: 0, change_24h: 0, high_24h: 0, low_24h: 0, volume_24h: 0 }),
    {
        CoinData {
            symbol,
            display_name,
            price_history: Vec::new(),
            window,
            price: 0,
            change_24h: 0,
            high_24h: 0,
            low_24h: 0,
            volume_24h: 0,
        }
    }

    /// Appends `s`, dropping the oldest sample when the window is full.
    pub fn push_sample(&mut self, s: Sample)
        requires
            old(self).wf(),
            in_fixed_range(s.price),
            old(self).history().len() > 0 ==> old(self).history().last().timestamp <= s.timestamp,
        ensures
            final(self).wf(),
            final(self).history() == window_push(old(self).history(), s, old(self).window as nat),
            final(self).window == old(self).window,
            final(self).symbol == old(self).symbol,
            final(self).display_name == old(self).display_name,
            final(self).snapshot() == old(self).snapshot(),
    {
        proof {
            lemma_window_push_ordered(self.history(), s, self.window as nat);
        }
        let ghost h0 = self.history();
        self.price_history.push(s);
        if self.price_history.len() > self.window {
            self.price_history.remove(0);
            assert(self.history() =~= h0.push(s).subrange(1, h0.len() + 1 as int));
        }
        assert(prices_in_range(self.history())) by {
            assert forall|i: int| 0 <= i < self.history().len() implies in_fixed_range(
                #[trigger] self.history()[i].price,
            ) by {
                let g = h0.push(s);
                if self.history().len() == g.len() {
                    assert(self.history()[i] == g[i]);
                } else {
                    assert(self.history()[i] == g[i + 1]);
                }
            }
        }
    }

    /// Takes in a fresh snapshot received at `now`: the statistics are replaced
    /// and `(now, price)` is appended to the history.
    pub fn record_snapshot(&mut self, snap: Snapshot, now: i64)
        requires
            old(self).wf(),
            snap.wf(),
        ensures
            final(self).wf(),
            final(self).snapshot() == snap,
            final(self).history() == window_push(
                old(self).history(),
                Sample { timestamp: stamp_for(old(self).history(), now), price: snap.price },
                old(self).window as nat,
            ),
            final(self).window == old(self).window,
            final(self).symbol == old(self).symbol,
            final(self).display_name == old(self).display_name,
            final(self).window > 0 ==> final(self).history().len() > 0
                && final(self).history().last().price == final(self).price,
    {
        let n = self.price_history.len();
        let mut ts: i64 = now;
        if n > 0 && self.price_history[n - 1].timestamp > now {
            ts = self.price_history[n - 1].timestamp;
        }
        self.push_sample(Sample { timestamp: ts, price: snap.price });
        self.price = snap.price;
        self.change_24h = snap.change_24h;
        self.high_24h = snap.high_24h;
        self.low_24h = snap.low_24h;
        self.volume_24h = snap.volume_24h;
    }

    /// The points of the chart: each sample's position in the history and its
    /// price.
    pub fn history_data(&self) -> (r: Vec<(usize, i128)>)
        ensures
            r@.len() == self.history().len(),
            forall|i: int| 0 <= i < r@.len() ==> #[trigger] r@[i] == (i as usize, self.history()[i].price),
    {
        let mut r: Vec<(usize, i128)> = Vec::new();
        let mut i: usize = 0;
        while i < self.price_history.len()
            invariant
                i <= self.history().len(),
                r@.len() == i,
                forall|k: int| 0 <= k < i ==> #[trigger] r@[k] == (k as usize, self.history()[k].price),
            decreases self.history().len() - i,
        {
            r.push((i, self.price_history[i].price));
            i = i + 1;
        }
        r
    }

    /// The lowest and highest price of the history, or a padded range where
    /// fewer than two distinct prices are held; never of zero width.
    pub fn price_bounds(&self) -> (r: (i128, i128))
        requires
            self.wf(),
        ensures
            (r.0 as int, r.1 as int) == bounds_of(self.history()),
            r.0 < r.1,
            forall|i: int| 0 <= i < self.history().len() ==> r.0 <= #[trigger] self.history()[i].price <= r.1,
    {
        let n = self.price_history.len();
        let ghost h = self.history();
        if n == 0 {
            return (-1, 1);
        }
        let mut lo: i128 = self.price_history[0].price;
        let mut hi: i128 = lo;
        let mut i: usize = 1;
        while i < n
            invariant
                1 <= i <= n,
                n == h.len(),
                h == self.history(),
                lo == min_price(h.subrange(0, i as int)),
                hi == max_price(h.subrange(0, i as int)),
            decreases n - i,
        {
            let p = self.price_history[i].price;
            assert(h.subrange(0, i + 1 as int).drop_last() =~= h.subrange(0, i as int));
            if p < lo {
                lo = p;
            }
            if p > hi {
                hi = p;
            }
            i = i + 1;
        }
        assert(h.subrange(0, n as int) =~= h);
        proof {
            lemma_extremes_bounded(h);
        }
        if n >= 2 && lo < hi {
            (lo, hi)
        } else {
            let c = self.price_history[0].price;
            assert(in_fixed_range(h[0].price));
            let a: i128 = if c < 0 { -c } else { c };
            let pad: i128 = if a / 100 >= 1 { a / 100 } else { 1 };
            (c - pad, c + pad)
        }
    }

    /// The times at which the axis is labelled: the oldest, middle and newest
    /// samples, or none for an empty history.
    pub fn time_labels(&self) -> (r: Vec<i64>)
        ensures
            self.history().len() == 0 ==> r@.len() == 0,
            self.history().len() > 0 ==> r@ == seq![
                self.history()[0].timestamp,
                self.history()[self.history().len() as int / 2].timestamp,
                self.history()[self.history().len() - 1].timestamp,
            ],
    {
        let n = self.price_history.len();
        let mut r: Vec<i64> = Vec::new();
        if n > 0 {
            r.push(self.price_history[0].timestamp);
            r.push(self.price_history[n / 2].timestamp);
            r.push(self.price_history[n - 1].timestamp);
        }
        r
    }
}

} // verus!
