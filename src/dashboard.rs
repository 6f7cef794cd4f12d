use vstd::prelude::*;

use crate::history::{
    lemma_window_keeps_latest, lemma_window_push_ordered, min_nat, stamp_for, time_ordered, window_after,
    window_push, CoinData, Sample, Snapshot,
};

verus! {

/// The whole dashboard: the tracked symbols in their configured order, how
/// many of them are scrolled out of view, and the outcome of the last refresh.
pub struct App {
    pub coins: Vec<CoinData>,
    pub scroll_offset: usize,
    pub last_update: Option<i64>,
    pub status_message: String,
}

/// The offset after one step down the list of `len` symbols: it stops at the
/// last one.
pub open spec fn scrolled_down(offset: nat, len: nat) -> nat {
    if offset + 1 < len { offset + 1 } else { offset }
}

/// The offset after one step up: it stops at the first symbol.
pub open spec fn scrolled_up(offset: nat) -> nat {
    if offset > 0 { (offset - 1) as nat } else { 0 }
}

/// The offset after a sequence of scroll steps, `true` for down.
pub open spec fn scrolled_by(offset: nat, len: nat, steps: Seq<bool>) -> nat
    decreases steps.len(),
{
    if steps.len() == 0 {
        offset
    } else {
        let o = scrolled_by(offset, len, steps.drop_last());
        if steps.last() { scrolled_down(o, len) } else { scrolled_up(o) }
    }
}

/// Whatever sequence of scroll steps arrives, an offset that starts inside a
/// non-empty list of `len` symbols stays inside it.
pub proof fn lemma_scroll_stays_in_list(offset: nat, len: nat, steps: Seq<bool>)
    requires
        offset < len,
    ensures
        scrolled_by(offset, len, steps) < len,
    decreases steps.len(),
{
    if steps.len() > 0 {
        lemma_scroll_stays_in_list(offset, len, steps.drop_last());
    }
}

/// The failures among `outcomes`, in order: each failed symbol of `names`
/// with its error text in parentheses.
pub open spec fn failure_notes(names: Seq<Seq<char>>, outcomes: Seq<Result<Snapshot, String>>) -> Seq<char>
    decreases outcomes.len(),
{
    if outcomes.len() == 0 {
        Seq::empty()
    } else {
        let k = outcomes.len() - 1;
        let rest = failure_notes(names, outcomes.drop_last());
        match outcomes[k] {
            Ok(_) => rest,
            Err(e) => rest + " "@ + names[k] + " ("@ + e@ + ")"@,
        }
    }
}

pub open spec fn any_failed(outcomes: Seq<Result<Snapshot, String>>) -> bool {
    exists|i: int| 0 <= i < outcomes.len() && (#[trigger] outcomes[i]).is_err()
}

/// The status line after a refresh: nothing to refresh, all updated, or the
/// symbols that failed and why.
pub open spec fn status_after(names: Seq<Seq<char>>, outcomes: Seq<Result<Snapshot, String>>) -> Seq<char> {
    if names.len() == 0 {
        "Nothing to refresh"@
    } else if !any_failed(outcomes) {
        "Updated"@
    } else {
        "Failed:"@ + failure_notes(names, outcomes)
    }
}

/// The series after one refresh outcome: a snapshot is taken in, an error
/// leaves it as it was.
pub open spec fn coin_after(c: CoinData, outcome: Result<Snapshot, String>, now: i64) -> (Seq<Sample>, Snapshot) {
    match outcome {
        Ok(s) => (
            window_push(c.history(), Sample { timestamp: stamp_for(c.history(), now), price: s.price }, c.window as nat),
            s,
        ),
        Err(_) => (c.history(), c.snapshot()),
    }
}


/// The samples that successive successful refreshes append to a series that
/// passes through `states`.
pub open spec fn appended(states: Seq<CoinData>, snaps: Seq<Snapshot>, stamps: Seq<i64>) -> Seq<Sample> {
    Seq::new(snaps.len(), |k: int| Sample { timestamp: stamp_for(states[k].history(), stamps[k]), price: snaps[k].price })
}

/// `states` is a series followed through successful refreshes: state `k + 1`
/// is what a refresh at `stamps[k]` that received `snaps[k]` leaves.
pub open spec fn refresh_chain(states: Seq<CoinData>, snaps: Seq<Snapshot>, stamps: Seq<i64>) -> bool {
    &&& states.len() == snaps.len() + 1
    &&& stamps.len() == snaps.len()
    &&& forall|k: int|
        0 <= k < snaps.len() ==> {
            &&& (#[trigger] states[k + 1]).history() == coin_after(states[k], Ok(snaps[k]), stamps[k]).0
            &&& states[k + 1].window == states[k].window
        }
}

proof fn lemma_chain_is_window(states: Seq<CoinData>, snaps: Seq<Snapshot>, stamps: Seq<i64>, k: int)
    requires
        refresh_chain(states, snaps, stamps),
        states[0].history().len() == 0,
        0 <= k <= snaps.len(),
    ensures
        states[k].history() == window_after(states[0].window as nat, appended(states, snaps, stamps).subrange(0, k)),
        time_ordered(states[k].history()),
        states[k].window == states[0].window,
    decreases k,
{
    let s = appended(states, snaps, stamps);
    if k == 0 {
        assert(s.subrange(0, 0) =~= Seq::<Sample>::empty());
    } else {
        lemma_chain_is_window(states, snaps, stamps, k - 1);
        assert(s.subrange(0, k).drop_last() =~= s.subrange(0, k - 1));
        assert(states[(k - 1) + 1] == states[k]);
        let h = states[k - 1].history();
        let smp = s[k - 1];
        lemma_window_push_ordered(h, smp, states[0].window as nat);
    }
}

/// After `n` successful refreshes of a series that started empty, its history
/// holds `min(n, W)` samples in time order: the ones the latest `min(n, W)`
/// refreshes appended, with their prices.
pub proof fn lemma_refreshes_fill_window(states: Seq<CoinData>, snaps: Seq<Snapshot>, stamps: Seq<i64>)
    requires
        refresh_chain(states, snaps, stamps),
        states[0].history().len() == 0,
    ensures
        ({
            let h = states.last().history();
            let n = snaps.len();
            let m = min_nat(n, states[0].window as nat);
            &&& h.len() == m
            &&& time_ordered(h)
            &&& forall|i: int| 0 <= i < m ==> (#[trigger] h[i]).price == snaps[n - m + i].price
        }),
{
    let n = snaps.len() as int;
    let w = states[0].window as nat;
    let s = appended(states, snaps, stamps);
    lemma_chain_is_window(states, snaps, stamps, n);
    assert(s.subrange(0, n) =~= s);
    assert(states.last() == states[n]);
    lemma_window_keeps_latest(w, s);
}


/// A refresh that failed for a symbol leaves its history and its statistics
/// as they were, whatever the time and the error.
pub proof fn lemma_failed_refresh_keeps_series(c: CoinData, e: String, now: i64)
    ensures
        coin_after(c, Err(e), now) == (c.history(), c.snapshot()),
{
}

/// `states` is a series followed through refreshes, each of which succeeded
/// or failed for it: state `k + 1` is what outcome `k` at `stamps[k]` leaves.
pub open spec fn outcome_chain(states: Seq<CoinData>, outcomes: Seq<Result<Snapshot, String>>, stamps: Seq<i64>) -> bool {
    &&& states.len() == outcomes.len() + 1
    &&& stamps.len() == outcomes.len()
    &&& forall|k: int|
        0 <= k < outcomes.len() ==> {
            &&& (#[trigger] states[k + 1]).history() == coin_after(states[k], outcomes[k], stamps[k]).0
            &&& states[k + 1].window == states[k].window
        }
}

/// However many refreshes pass, succeeding or failing, a series whose history
/// started within its window of `W` never holds more than `W` samples.
pub proof fn lemma_refreshes_stay_in_window(
    states: Seq<CoinData>,
    outcomes: Seq<Result<Snapshot, String>>,
    stamps: Seq<i64>,
    k: int,
)
    requires
        outcome_chain(states, outcomes, stamps),
        states[0].history().len() <= states[0].window,
        0 <= k < states.len(),
    ensures
        states[k].history().len() <= states[0].window,
        states[k].window == states[0].window,
    decreases k,
{
    if k > 0 {
        lemma_refreshes_stay_in_window(states, outcomes, stamps, k - 1);
        assert(states[(k - 1) + 1] == states[k]);
    }
}

impl App {
    pub open spec fn wf(&self) -> bool {
        &&& forall|i: int| 0 <= i < self.coins@.len() ==> (#[trigger] self.coins@[i]).wf()
        &&& self.coins@.len() == 0 ==> self.scroll_offset == 0
        &&& self.coins@.len() > 0 ==> self.scroll_offset < self.coins@.len()
    }

    pub open spec fn names(&self) -> Seq<Seq<char>> {
        Seq::new(self.coins@.len(), |i: int| self.coins@[i].symbol@)
    }

    /// One series per symbol, in the given order, each holding at most
    /// `window` samples; nothing scrolled, nothing refreshed yet.
    pub fn new(symbols: &Vec<String>, window: usize) -> (r: App)
        ensures
            r.wf(),
            r.coins@.len() == symbols@.len(),
            forall|i: int|
                0 <= i < symbols@.len() ==> {
                    &&& (#[trigger] r.coins@[i]).symbol@ == symbols@[i]@
                    &&& r.coins@[i].display_name@ == symbols@[i]@
                    &&& r.coins@[i].window == window
                    &&& r.coins@[i].history().len() == 0
                    &&& r.coins@[i].snapshot() == (Snapshot {
                        price: 0,
                        change_24h: 0,
                        high_24h: 0,
                        low_24h: 0,
                        volume_24h: 0,
                    })
                },
            r.scroll_offset == 0,
            r.last_update.is_none(),
            r.status_message@ == "Loading..."@,
    {
        let mut coins: Vec<CoinData> = Vec::new();
        let mut i: usize = 0;
        while i < symbols.len()
            invariant
                i <= symbols@.len(),
                coins@.len() == i,
                forall|k: int|
                    0 <= k < i ==> {
                        &&& (#[trigger] coins@[k]).wf()
                        &&& coins@[k].symbol@ == symbols@[k]@
                        &&& coins@[k].display_name@ == symbols@[k]@
                        &&& coins@[k].window == window
                        &&& coins@[k].history().len() == 0
                        &&& coins@[k].snapshot() == (Snapshot {
                            price: 0,
                            change_24h: 0,
                            high_24h: 0,
                            low_24h: 0,
                            volume_24h: 0,
                        })
                    },
            decreases symbols@.len() - i,
        {
            let c = CoinData::new(symbols[i].clone(), symbols[i].clone(), window);
            coins.push(c);
            i = i + 1;
        }
        App { coins, scroll_offset: 0, last_update: None, status_message: String::from_str("Loading...") }
    }

    /// Moves the view one symbol down, stopping at the last one.
    pub fn scroll_down(&mut self)
        requires
            old(self).wf(),
        ensures
            final(self).wf(),
            final(self).scroll_offset == scrolled_down(old(self).scroll_offset as nat, old(self).coins@.len()),
            final(self).coins == old(self).coins,
            final(self).last_update == old(self).last_update,
            final(self).status_message == old(self).status_message,
    {
        if self.coins.len() > 0 && self.scroll_offset < self.coins.len() - 1 {
            self.scroll_offset = self.scroll_offset + 1;
        }
    }

    /// Moves the view one symbol up, stopping at the first one.
    pub fn scroll_up(&mut self)
        requires
            old(self).wf(),
        ensures
            final(self).wf(),
            final(self).scroll_offset == scrolled_up(old(self).scroll_offset as nat),
            final(self).coins == old(self).coins,
            final(self).last_update == old(self).last_update,
            final(self).status_message == old(self).status_message,
    {
        if self.scroll_offset > 0 {
            self.scroll_offset = self.scroll_offset - 1;
        }
    }

    /// The positions in `coins` shown in a view with room for `capacity`
    /// charts: from the scroll offset on, as many as fit and exist.
    pub fn visible_range(&self, capacity: usize) -> (r: (usize, usize))
        requires
            self.wf(),
        ensures
            r.0 == self.scroll_offset,
            r.0 <= r.1 <= self.coins@.len(),
            r.1 - r.0 == if capacity <= self.coins@.len() - self.scroll_offset {
                capacity as int
            } else {
                self.coins@.len() - self.scroll_offset
            },
    {
        let rest = self.coins.len() - self.scroll_offset;
        let count = if capacity <= rest { capacity } else { rest };
        (self.scroll_offset, self.scroll_offset + count)
    }

    /// Folds in one refresh cycle taken at `now`, one outcome per symbol in
    /// order: a snapshot updates its symbol, an error leaves it untouched and
    /// is named in the status line.
    pub fn apply_refresh(&mut self, outcomes: &Vec<Result<Snapshot, String>>, now: i64)
        requires
            old(self).wf(),
            outcomes@.len() == old(self).coins@.len(),
            forall|i: int| 0 <= i < outcomes@.len() && (#[trigger] outcomes@[i]).is_ok() ==> outcomes@[i]->Ok_0.wf(),
        ensures
            final(self).wf(),
            final(self).coins@.len() == old(self).coins@.len(),
            forall|i: int|
                0 <= i < outcomes@.len() ==> {
                    &&& (#[trigger] final(self).coins@[i]).history() == coin_after(old(self).coins@[i], outcomes@[i], now).0
                    &&& final(self).coins@[i].snapshot() == coin_after(old(self).coins@[i], outcomes@[i], now).1
                    &&& final(self).coins@[i].symbol == old(self).coins@[i].symbol
                    &&& final(self).coins@[i].display_name == old(self).coins@[i].display_name
                    &&& final(self).coins@[i].window == old(self).coins@[i].window
                    &&& outcomes@[i].is_err() ==> final(self).coins@[i].history() == old(self).coins@[i].history()
                        && final(self).coins@[i].snapshot() == old(self).coins@[i].snapshot()
                },
            final(self).scroll_offset == old(self).scroll_offset,
            final(self).last_update == Some(now),
            final(self).status_message@ == status_after(old(self).names(), outcomes@),
    {
        let ghost c0 = self.coins@;
        let ghost names0 = self.names();
        let ghost off0 = self.scroll_offset;
        let n = self.coins.len();
        let mut notes = String::new();
        let mut failed = false;
        let mut i: usize = 0;
        while i < n
            invariant
                i <= n,
                n == c0.len(),
                outcomes@.len() == n,
                self.coins@.len() == n,
                self.scroll_offset == off0,
                off0 == old(self).scroll_offset,
                names0 == Seq::new(c0.len(), |k: int| c0[k].symbol@),
                forall|k: int| 0 <= k < outcomes@.len() && (#[trigger] outcomes@[k]).is_ok() ==> outcomes@[k]->Ok_0.wf(),
                forall|k: int| 0 <= k < n ==> (#[trigger] self.coins@[k]).wf(),
                forall|k: int| i <= k < n ==> #[trigger] self.coins@[k] == c0[k],
                forall|k: int|
                    0 <= k < i ==> {
                        &&& (#[trigger] self.coins@[k]).history() == coin_after(c0[k], outcomes@[k], now).0
                        &&& self.coins@[k].snapshot() == coin_after(c0[k], outcomes@[k], now).1
                        &&& self.coins@[k].symbol == c0[k].symbol
                        &&& self.coins@[k].display_name == c0[k].display_name
                        &&& self.coins@[k].window == c0[k].window
                    },
                notes@ == failure_notes(names0, outcomes@.subrange(0, i as int)),
                failed == any_failed(outcomes@.subrange(0, i as int)),
            decreases n - i,
        {
            let ghost sub = outcomes@.subrange(0, i + 1 as int);
            assert(sub.drop_last() =~= outcomes@.subrange(0, i as int));
            assert(sub[i as int] == outcomes@[i as int]);
            match &outcomes[i] {
                Ok(snap) => {
                    self.coins[i].record_snapshot(*snap, now);
                },
                Err(e) => {
                    failed = true;
                    notes.append(" ");
                    notes.append(self.coins[i].symbol.as_str());
                    notes.append(" (");
                    notes.append(e.as_str());
                    notes.append(")");
                },
            }
            proof {
                if failed {
                    if !any_failed(outcomes@.subrange(0, i as int)) {
                        assert(sub[i as int].is_err());
                    } else {
                        let j = choose|j: int| 0 <= j < i && (#[trigger] outcomes@.subrange(0, i as int)[j]).is_err();
                        assert(sub[j] == outcomes@.subrange(0, i as int)[j]);
                    }
                } else {
                    assert forall|j: int| 0 <= j < sub.len() implies !(#[trigger] sub[j]).is_err() by {
                        if j < i {
                            assert(sub[j] == outcomes@.subrange(0, i as int)[j]);
                        }
                    }
                }
            }
            i = i + 1;
        }
        assert(outcomes@.subrange(0, n as int) =~= outcomes@);
        assert(names0 =~= self.names()) by {
            assert(names0.len() == self.names().len());
        }
        self.last_update = Some(now);
        if n == 0 {
            self.status_message = String::from_str("Nothing to refresh");
        } else if !failed {
            self.status_message = String::from_str("Updated");
        } else {
            let mut msg = String::from_str("Failed:");
            msg.append(notes.as_str());
            self.status_message = msg;
        }
    }
}

} // verus!
