//! Debounce filter: turns noisy raw per-cell readings into a stable
//! per-cell key state, using a per-cell consecutive-disagreement counter.

use vstd::prelude::*;

verus! {

/// Default consecutive-agreement threshold; a value of 1 disables filtering,
/// so every raw change commits immediately.
pub const DEBOUNCE_LENGTH: u8 = 1;

/// Stabilized state of one key cell.
#[derive(Clone, Copy, Debug, PartialEq, Eq, Structural)]
pub enum KeyState {
    Up,
    Down,
}

/// The key state that one raw reading claims (true = contact closed).
pub open spec fn key_of(raw: bool) -> KeyState {
    if raw {
        KeyState::Down
    } else {
        KeyState::Up
    }
}

/// One debounce step for one cell: the new (stabilized state, counter) after
/// sampling `raw`, given the currently reported state and the counter of
/// consecutive disagreeing samples.  A sample agreeing with the reported
/// state resets the counter; a disagreeing sample increments it, and commits
/// the new state (resetting the counter) once `threshold` consecutive
/// disagreements have been seen.
pub open spec fn cell_step(reported: KeyState, counter: int, raw: bool, threshold: int) -> (KeyState, int) {
    if key_of(raw) != reported {
        if counter + 1 == threshold {
            (key_of(raw), 0)
        } else {
            (reported, counter + 1)
        }
    } else {
        (reported, 0)
    }
}

/// The (stabilized state, counter) of one cell after feeding a whole sequence
/// of raw samples through `cell_step`, oldest sample first.
pub open spec fn cell_run(s0: KeyState, k0: int, raws: Seq<bool>, threshold: int) -> (KeyState, int)
    decreases raws.len(),
{
    if raws.len() == 0 {
        (s0, k0)
    } else {
        let prev = cell_run(s0, k0, raws.drop_last(), threshold);
        cell_step(prev.0, prev.1, raws.last(), threshold)
    }
}

/// One more sample extends a run by one `cell_step`: the glue between the
/// per-tick contract of `Matrix::update` and the sequence model `cell_run`.
pub proof fn lemma_cell_run_extend(s0: KeyState, k0: int, raws: Seq<bool>, raw: bool, threshold: int)
    ensures
        cell_run(s0, k0, raws.push(raw), threshold) == cell_step(
            cell_run(s0, k0, raws, threshold).0,
            cell_run(s0, k0, raws, threshold).1,
            raw,
            threshold,
        ),
{
    assert(raws.push(raw).drop_last() =~= raws);
}

/// The counter of a cell always counts a trailing streak: after any raw
/// sample sequence it is strictly below the threshold, and the last `k`
/// samples (where `k` is the counter) all disagree with the stabilized
/// state reported at that point.
pub proof fn lemma_counter_tracks_streak(s0: KeyState, raws: Seq<bool>, threshold: int)
    requires
        threshold >= 1,
    ensures
        ({
            let run = cell_run(s0, 0, raws, threshold);
            &&& 0 <= run.1 < threshold
            &&& run.1 <= raws.len()
            &&& forall|j: int| raws.len() - run.1 <= j < raws.len() ==> key_of(#[trigger] raws[j]) != run.0
        }),
    decreases raws.len(),
{
    if raws.len() > 0 {
        lemma_counter_tracks_streak(s0, raws.drop_last(), threshold);
        let run = cell_run(s0, 0, raws, threshold);
        assert forall|j: int| raws.len() - run.1 <= j < raws.len() implies key_of(#[trigger] raws[j])
            != run.0 by {
            if j < raws.len() - 1 {
                assert(raws.drop_last()[j] == raws[j]);
            }
        }
    }
}

/// Law: the stabilized state of a cell changes only after `threshold`
/// consecutive raw samples disagreeing with the state it held.  If one
/// `cell_step` changes the state, then at least `threshold` samples have
/// been taken, the last `threshold` of them all disagree with the state
/// they overthrew, the new state is the one the last sample claims, and
/// the counter resets to zero.
pub proof fn lemma_change_needs_streak(s0: KeyState, raws: Seq<bool>, threshold: int)
    requires
        threshold >= 1,
        raws.len() >= 1,
        cell_run(s0, 0, raws, threshold).0 != cell_run(s0, 0, raws.drop_last(), threshold).0,
    ensures
        raws.len() >= threshold,
        cell_run(s0, 0, raws, threshold).0 == key_of(raws.last()),
        cell_run(s0, 0, raws, threshold).1 == 0,
        forall|j: int|
            raws.len() - threshold <= j < raws.len() ==> key_of(#[trigger] raws[j]) != cell_run(
                s0,
                0,
                raws.drop_last(),
                threshold,
            ).0,
{
    lemma_counter_tracks_streak(s0, raws.drop_last(), threshold);
    let prev = cell_run(s0, 0, raws.drop_last(), threshold);
    assert forall|j: int| raws.len() - threshold <= j < raws.len() implies key_of(#[trigger] raws[j])
        != prev.0 by {
        if j < raws.len() - 1 {
            assert(raws.drop_last()[j] == raws[j]);
        }
    }
}

/// Law: a disagreeing sample that does not reach the threshold, followed
/// immediately by an agreeing sample, never changes the stabilized state,
/// and the counter returns to zero.
pub proof fn lemma_revert_cancels(s: KeyState, k: int, noisy: bool, agreeing: bool, threshold: int)
    requires
        0 <= k,
        k + 1 < threshold,
        key_of(noisy) != s,
        key_of(agreeing) == s,
    ensures
        cell_run(s, k, seq![noisy, agreeing], threshold) == (s, 0int),
{
    let raws = seq![noisy, agreeing];
    assert(raws.drop_last() =~= seq![noisy]);
    assert(seq![noisy].drop_last() =~= Seq::<bool>::empty());
    assert(cell_run(s, k, Seq::<bool>::empty(), threshold) == (s, k));
    assert(cell_run(s, k, seq![noisy], threshold) == cell_step(s, k, noisy, threshold));
    assert(cell_run(s, k, raws, threshold) == cell_step(s, k + 1, agreeing, threshold));
}

/// Whether a raw snapshot has the dimensions of an `r` by `c` grid.
pub open spec fn raw_wf(raw: Seq<Vec<bool>>, rows: int, columns: int) -> bool {
    &&& raw.len() == rows
    &&& forall|r: int| 0 <= r < rows ==> (#[trigger] raw[r])@.len() == columns
}

/// Whether some cell of a raw snapshot reads asserted (contact closed).
pub open spec fn any_raw(raw: Seq<Vec<bool>>, rows: int, columns: int) -> bool {
    exists|r: int, c: int| 0 <= r < rows && 0 <= c < columns && (#[trigger] raw[r]@[c])
}

/// The debounce filter's state for an R by C grid: the stabilized state and
/// the consecutive-disagreement counter of every cell, as of the last call
/// to `update`.
pub struct Matrix {
    /// Number of rows of the grid.
    pub rows: usize,
    /// Number of columns of the grid.
    pub columns: usize,
    /// Consecutive-agreement threshold for committing a stabilized state.
    pub threshold: u8,
    /// Stabilized per-cell state, row-major.
    pub state: Vec<Vec<KeyState>>,
    /// Per-cell count of consecutive raw samples disagreeing with `state`.
    pub counters: Vec<Vec<u8>>,
}

impl Matrix {
    /// Well-formedness: the grids have the configured dimensions, the
    /// threshold is positive, and every counter is strictly below it.
    pub open spec fn wf(self) -> bool {
        &&& self.threshold >= 1
        &&& self.state@.len() == self.rows
        &&& self.counters@.len() == self.rows
        &&& forall|r: int| 0 <= r < self.rows ==> (#[trigger] self.state@[r])@.len() == self.columns
        &&& forall|r: int| 0 <= r < self.rows ==> (#[trigger] self.counters@[r])@.len() == self.columns
        &&& forall|r: int, c: int|
            0 <= r < self.rows && 0 <= c < self.columns ==> (#[trigger] self.counters@[r]@[c]) < self.threshold
    }

    /// Relation between the filter's state after and before one `update`
    /// call on the raw snapshot `raw`: every cell advances by one
    /// `cell_step`, and the configuration is unchanged.
    pub open spec fn updated_from(self, pre: Matrix, raw: Seq<Vec<bool>>) -> bool {
        &&& self.rows == pre.rows
        &&& self.columns == pre.columns
        &&& self.threshold == pre.threshold
        &&& forall|r: int, c: int|
            0 <= r < pre.rows && 0 <= c < pre.columns ==> {
                let step = cell_step(pre.state@[r]@[c], pre.counters@[r]@[c] as int, #[trigger] raw[r]@[c], pre.threshold as int);
                self.state@[r]@[c] == step.0 && self.counters@[r]@[c] as int == step.1
            }
    }

    /// Whether some cell's stabilized state is `Down`.
    pub open spec fn spec_any(self) -> bool {
        exists|r: int, c: int|
            0 <= r < self.rows && 0 <= c < self.columns && (#[trigger] self.state@[r]@[c]) is Down
    }

    /// A fresh filter for an R by C grid: every cell reports `Up` with a
    /// zeroed counter.
    pub fn new(rows: usize, columns: usize, threshold: u8) -> (m: Matrix)
        requires
            threshold >= 1,
        ensures
            m.wf(),
            m.rows == rows,
            m.columns == columns,
            m.threshold == threshold,
            forall|r: int, c: int|
                0 <= r < rows && 0 <= c < columns ==> (#[trigger] m.state@[r]@[c]) == KeyState::Up,
            forall|r: int, c: int|
                0 <= r < rows && 0 <= c < columns ==> (#[trigger] m.counters@[r]@[c]) == 0,
    {
        let mut state: Vec<Vec<KeyState>> = Vec::new();
        let mut counters: Vec<Vec<u8>> = Vec::new();
        let mut r: usize = 0;
        while r < rows
            invariant
                r <= rows,
                state@.len() == r,
                counters@.len() == r,
                forall|i: int| 0 <= i < r ==> (#[trigger] state@[i])@.len() == columns,
                forall|i: int| 0 <= i < r ==> (#[trigger] counters@[i])@.len() == columns,
                forall|i: int, j: int|
                    0 <= i < r && 0 <= j < columns ==> (#[trigger] state@[i]@[j]) == KeyState::Up,
                forall|i: int, j: int|
                    0 <= i < r && 0 <= j < columns ==> (#[trigger] counters@[i]@[j]) == 0,
            decreases rows - r,
        {
            let mut srow: Vec<KeyState> = Vec::new();
            let mut crow: Vec<u8> = Vec::new();
            let mut c: usize = 0;
            while c < columns
                invariant
                    c <= columns,
                    srow@.len() == c,
                    crow@.len() == c,
                    forall|j: int| 0 <= j < c ==> (#[trigger] srow@[j]) == KeyState::Up,
                    forall|j: int| 0 <= j < c ==> (#[trigger] crow@[j]) == 0,
                decreases columns - c,
            {
                srow.push(KeyState::Up);
                crow.push(0);
                c += 1;
            }
            state.push(srow);
            counters.push(crow);
            r += 1;
        }
        Matrix { rows, columns, threshold, state, counters }
    }

    /// One debounce tick: consume a raw snapshot and advance every cell's
    /// (stabilized state, counter) by one `cell_step`.
    pub fn update(&mut self, raw: &Vec<Vec<bool>>)
        requires
            old(self).wf(),
            raw_wf(raw@, old(self).rows as int, old(self).columns as int),
        ensures
            final(self).wf(),
            final(self).updated_from(*old(self), raw@),
    {
        let rows = self.rows;
        let columns = self.columns;
        let threshold = self.threshold;
        let mut state: Vec<Vec<KeyState>> = Vec::new();
        let mut counters: Vec<Vec<u8>> = Vec::new();
        let mut r: usize = 0;
        while r < rows
            invariant
                old(self).wf(),
                raw_wf(raw@, old(self).rows as int, old(self).columns as int),
                *self == *old(self),
                rows == old(self).rows,
                columns == old(self).columns,
                threshold == old(self).threshold,
                r <= rows,
                state@.len() == r,
                counters@.len() == r,
                forall|i: int| 0 <= i < r ==> (#[trigger] state@[i])@.len() == columns,
                forall|i: int| 0 <= i < r ==> (#[trigger] counters@[i])@.len() == columns,
                forall|i: int, j: int|
                    0 <= i < r && 0 <= j < columns ==> {
                        let step = cell_step(
                            old(self).state@[i]@[j],
                            old(self).counters@[i]@[j] as int,
                            #[trigger] raw@[i]@[j],
                            threshold as int,
                        );
                        state@[i]@[j] == step.0 && counters@[i]@[j] as int == step.1
                    },
                forall|i: int, j: int|
                    0 <= i < r && 0 <= j < columns ==> (#[trigger] counters@[i]@[j]) < threshold,
            decreases rows - r,
        {
            let mut srow: Vec<KeyState> = Vec::new();
            let mut crow: Vec<u8> = Vec::new();
            let mut c: usize = 0;
            while c < columns
                invariant
                    old(self).wf(),
                    raw_wf(raw@, old(self).rows as int, old(self).columns as int),
                    *self == *old(self),
                    rows == old(self).rows,
                    columns == old(self).columns,
                    threshold == old(self).threshold,
                    r < rows,
                    c <= columns,
                    srow@.len() == c,
                    crow@.len() == c,
                    forall|j: int|
                        0 <= j < c ==> {
                            let step = cell_step(
                                old(self).state@[r as int]@[j],
                                old(self).counters@[r as int]@[j] as int,
                                #[trigger] raw@[r as int]@[j],
                                threshold as int,
                            );
                            srow@[j] == step.0 && crow@[j] as int == step.1
                        },
                    forall|j: int| 0 <= j < c ==> (#[trigger] crow@[j]) < threshold,
                decreases columns - c,
            {
                let measured = if raw[r][c] {
                    KeyState::Down
                } else {
                    KeyState::Up
                };
                let reported = self.state[r][c];
                let counter = self.counters[r][c];
                if measured != reported {
                    let bumped = counter + 1;
                    if bumped == threshold {
                        srow.push(measured);
                        crow.push(0);
                    } else {
                        srow.push(reported);
                        crow.push(bumped);
                    }
                } else {
                    srow.push(reported);
                    crow.push(0);
                }
                c += 1;
            }
            state.push(srow);
            counters.push(crow);
            r += 1;
        }
        self.state = state;
        self.counters = counters;
    }

    /// Whether any cell's stabilized state is currently `Down`; usable as a
    /// simple "any key asserted" status signal.
    pub fn any(&self) -> (r: bool)
        requires
            self.wf(),
        ensures
            r == self.spec_any(),
    {
        let mut r: usize = 0;
        while r < self.rows
            invariant
                self.wf(),
                r <= self.rows,
                forall|i: int, j: int|
                    0 <= i < r && 0 <= j < self.columns ==> !((#[trigger] self.state@[i]@[j]) is Down),
            decreases self.rows - r,
        {
            let mut c: usize = 0;
            while c < self.columns
                invariant
                    self.wf(),
                    r < self.rows,
                    c <= self.columns,
                    forall|j: int| 0 <= j < c ==> !((#[trigger] self.state@[r as int]@[j]) is Down),
                decreases self.columns - c,
            {
                if self.state[r][c] == KeyState::Down {
                    return true;
                }
                c += 1;
            }
            r += 1;
        }
        false
    }
}

} // verus!
