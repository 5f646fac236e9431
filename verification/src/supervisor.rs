//! Power supervisor: a three-state scheduler deciding when the grid is
//! scanned and how the pins are to be configured between ticks.

use vstd::prelude::*;
use crate::matrix::{any_raw, raw_wf, Matrix};

verus! {

/// Electrical/scheduling mode of the scanner.  Exactly one mode holds the
/// pin resources at any time.
#[derive(Clone, Copy, Debug, PartialEq, Eq, Structural)]
pub enum PowerMode {
    /// Rows driven one at a time while the columns are sampled.
    Active,
    /// Pins high-impedance for a fixed dwell while a key is believed pressed.
    Dormant,
    /// Rows idle-high, columns pulled low, waiting for a wake edge.
    Passive,
}

/// The wait the caller must perform before the next scan, as a function of
/// the current mode.
#[derive(Clone, Copy, Debug, PartialEq, Eq, Structural)]
pub enum WaitRequest {
    /// Scan immediately.
    ScanNow,
    /// Block for the dormant dwell, then scan.
    DwellThenScan,
    /// Block until a column-level change occurs, then scan.
    WakeThenScan,
}

/// The mode after one serviced tick: from `Active`, the just-completed scan
/// decides between `Dormant` (some cell asserted) and `Passive` (none);
/// `Dormant` returns to `Active` unconditionally after the dwell, and
/// `Passive` returns to `Active` unconditionally on wake.
pub open spec fn spec_transition(mode: PowerMode, any_asserted: bool) -> PowerMode {
    match mode {
        PowerMode::Active => {
            if any_asserted {
                PowerMode::Dormant
            } else {
                PowerMode::Passive
            }
        }
        PowerMode::Dormant => PowerMode::Active,
        PowerMode::Passive => PowerMode::Active,
    }
}

/// The power-mode transition function.  It is total and deterministic: the
/// result is pinned for every (mode, any_asserted) pair.
pub fn transition(mode: PowerMode, any_asserted: bool) -> (next: PowerMode)
    ensures
        next == spec_transition(mode, any_asserted),
        next == PowerMode::Passive <==> (mode == PowerMode::Active && !any_asserted),
        next == PowerMode::Dormant <==> (mode == PowerMode::Active && any_asserted),
        next == PowerMode::Active <==> mode != PowerMode::Active,
{
    match mode {
        PowerMode::Active => {
            if any_asserted {
                PowerMode::Dormant
            } else {
                PowerMode::Passive
            }
        }
        PowerMode::Dormant => PowerMode::Active,
        PowerMode::Passive => PowerMode::Active,
    }
}

/// The wait a caller must perform before handing the next raw snapshot to
/// `service`, as a function of the current mode.
pub open spec fn spec_wait(mode: PowerMode) -> WaitRequest {
    match mode {
        PowerMode::Active => WaitRequest::ScanNow,
        PowerMode::Dormant => WaitRequest::DwellThenScan,
        PowerMode::Passive => WaitRequest::WakeThenScan,
    }
}

/// Whether some cell of a raw snapshot reads asserted.
fn scan_any(raw: &Vec<Vec<bool>>, rows: usize, columns: usize) -> (r: bool)
    requires
        raw_wf(raw@, rows as int, columns as int),
    ensures
        r == any_raw(raw@, rows as int, columns as int),
{
    let mut i: usize = 0;
    while i < rows
        invariant
            raw_wf(raw@, rows as int, columns as int),
            i <= rows,
            forall|r: int, c: int| 0 <= r < i && 0 <= c < columns ==> !(#[trigger] raw@[r]@[c]),
        decreases rows - i,
    {
        let mut j: usize = 0;
        while j < columns
            invariant
                raw_wf(raw@, rows as int, columns as int),
                i < rows,
                j <= columns,
                forall|c: int| 0 <= c < j ==> !(#[trigger] raw@[i as int]@[c]),
            decreases columns - j,
        {
            if raw[i][j] {
                return true;
            }
            j += 1;
        }
        i += 1;
    }
    false
}

/// Owns the debounce filter and the power mode, and advances both once per
/// serviced tick.  The caller performs the wait named by `required_wait`,
/// scans the grid, and hands the fresh raw snapshot to `service`.
pub struct MatrixSupervisor {
    /// The debounce filter, holding the stabilized per-cell state.
    pub matrix: Matrix,
    /// The current power mode; `Active` initially.
    pub mode: PowerMode,
    /// Duration (in caller time units) that pins stay high-impedance per
    /// `Dormant` dwell.
    pub dormant_dwell: usize,
}

impl MatrixSupervisor {
    /// Well-formedness of the held filter state.
    pub open spec fn wf(self) -> bool {
        self.matrix.wf()
    }

    /// A fresh supervisor for an R by C grid, starting in `Active` with
    /// every cell stabilized `Up`.
    pub fn new(rows: usize, columns: usize, threshold: u8, dormant_dwell: usize) -> (s: MatrixSupervisor)
        requires
            threshold >= 1,
        ensures
            s.wf(),
            s.mode == PowerMode::Active,
            s.dormant_dwell == dormant_dwell,
            s.matrix.rows == rows,
            s.matrix.columns == columns,
            s.matrix.threshold == threshold,
            forall|r: int, c: int|
                0 <= r < rows && 0 <= c < columns ==> (#[trigger] s.matrix.state@[r]@[c])
                    == crate::matrix::KeyState::Up,
    {
        MatrixSupervisor { matrix: Matrix::new(rows, columns, threshold), mode: PowerMode::Active, dormant_dwell }
    }

    /// The wait the caller must perform before the next scan.  Control must
    /// return to `service` only after this condition is satisfied.
    pub fn required_wait(&self) -> (w: WaitRequest)
        ensures
            w == spec_wait(self.mode),
    {
        match self.mode {
            PowerMode::Active => WaitRequest::ScanNow,
            PowerMode::Dormant => WaitRequest::DwellThenScan,
            PowerMode::Passive => WaitRequest::WakeThenScan,
        }
    }

    /// One serviced tick: consume the raw snapshot produced by the scan that
    /// followed this mode's wait, advance the debounce filter by one tick,
    /// and take the power-mode transition decided by the snapshot.
    pub fn service(&mut self, raw: &Vec<Vec<bool>>)
        requires
            old(self).wf(),
            raw_wf(raw@, old(self).matrix.rows as int, old(self).matrix.columns as int),
        ensures
            final(self).wf(),
            final(self).matrix.updated_from(old(self).matrix, raw@),
            final(self).mode == spec_transition(
                old(self).mode,
                any_raw(raw@, old(self).matrix.rows as int, old(self).matrix.columns as int),
            ),
            final(self).dormant_dwell == old(self).dormant_dwell,
    {
        let any_asserted = scan_any(raw, self.matrix.rows, self.matrix.columns);
        self.matrix.update(raw);
        self.mode = transition(self.mode, any_asserted);
    }
}

} // verus!
