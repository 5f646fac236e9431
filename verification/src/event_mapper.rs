//! Per-cell edge detection: turns stabilized key-state transitions into at
//! most one press/release event per cell and tick.

use vstd::prelude::*;
use crate::matrix::KeyState;

verus! {

/// A press or release of the key with the given stable flattened id.
#[derive(Clone, Copy, Debug, PartialEq, Eq, Structural)]
pub enum Event {
    KeyUp { key: usize },
    KeyDown { key: usize },
}

/// An edge detector: fed the stabilized state of its cell once per tick, it
/// reports at most one event per call.
pub trait Detector {
    fn step(&mut self, state: KeyState) -> Option<Event>;
}

/// Edge-detector state for one cell, permanently bound to that cell's stable
/// flattened id.  `Waiting` reports no key asserted; `Triggered` reports the
/// key asserted.
#[derive(Clone, Copy, Debug, PartialEq, Eq, Structural)]
pub enum SimpleKey {
    Waiting { id: usize },
    Triggered { id: usize },
}

impl SimpleKey {
    /// The stable flattened id this detector is bound to.
    pub open spec fn id(self) -> usize {
        match self {
            SimpleKey::Waiting { id } => id,
            SimpleKey::Triggered { id } => id,
        }
    }

    /// Whether the detector currently reports its key as asserted.
    pub open spec fn is_triggered(self) -> bool {
        self is Triggered
    }
}

/// One edge-detector step: the new detector state and the emitted event (if
/// any).  An event is emitted exactly on the two state transitions.
pub open spec fn det_step(d: SimpleKey, input: KeyState) -> (SimpleKey, Option<Event>) {
    match d {
        SimpleKey::Waiting { id } => {
            if input is Down {
                (SimpleKey::Triggered { id }, Some(Event::KeyDown { key: id }))
            } else {
                (d, None)
            }
        }
        SimpleKey::Triggered { id } => {
            if input is Up {
                (SimpleKey::Waiting { id }, Some(Event::KeyUp { key: id }))
            } else {
                (d, None)
            }
        }
    }
}

impl Detector for SimpleKey {
    fn step(&mut self, state: KeyState) -> (e: Option<Event>)
        ensures
            *final(self) == det_step(*old(self), state).0,
            e == det_step(*old(self), state).1,
    {
        match *self {
            SimpleKey::Waiting { id } => {
                if state == KeyState::Down {
                    *self = SimpleKey::Triggered { id };
                    Some(Event::KeyDown { key: id })
                } else {
                    None
                }
            }
            SimpleKey::Triggered { id } => {
                if state == KeyState::Up {
                    *self = SimpleKey::Waiting { id };
                    Some(Event::KeyUp { key: id })
                } else {
                    None
                }
            }
        }
    }
}

/// Whether an optional event is a `KeyDown`.
pub open spec fn is_down_event(e: Option<Event>) -> bool {
    match e {
        Some(Event::KeyDown { .. }) => true,
        _ => false,
    }
}

/// Whether an optional event is a `KeyUp`.
pub open spec fn is_up_event(e: Option<Event>) -> bool {
    match e {
        Some(Event::KeyUp { .. }) => true,
        _ => false,
    }
}

/// The detector state and the per-tick optional events after feeding a whole
/// sequence of stabilized states through `det_step`, oldest input first.
pub open spec fn det_run(d: SimpleKey, inputs: Seq<KeyState>) -> (SimpleKey, Seq<Option<Event>>)
    decreases inputs.len(),
{
    if inputs.len() == 0 {
        (d, Seq::empty())
    } else {
        let prev = det_run(d, inputs.drop_last());
        let step = det_step(prev.0, inputs.last());
        (step.0, prev.1.push(step.1))
    }
}

/// Number of `KeyDown` events in a per-tick event sequence.
pub open spec fn count_downs(events: Seq<Option<Event>>) -> int
    decreases events.len(),
{
    if events.len() == 0 {
        0
    } else {
        count_downs(events.drop_last()) + if is_down_event(events.last()) {
            1int
        } else {
            0int
        }
    }
}

/// Number of `KeyUp` events in a per-tick event sequence.
pub open spec fn count_ups(events: Seq<Option<Event>>) -> int
    decreases events.len(),
{
    if events.len() == 0 {
        0
    } else {
        count_ups(events.drop_last()) + if is_up_event(events.last()) {
            1int
        } else {
            0int
        }
    }
}

/// One more input extends a run by one `det_step`: the glue between the
/// per-tick contracts of `Detector::step` and `Mapper::step` and the
/// sequence model `det_run`.
pub proof fn lemma_det_run_extend(d0: SimpleKey, inputs: Seq<KeyState>, input: KeyState)
    ensures
        ({
            let run = det_run(d0, inputs);
            let step = det_step(run.0, input);
            det_run(d0, inputs.push(input)) == (step.0, run.1.push(step.1))
        }),
{
    assert(inputs.push(input).drop_last() =~= inputs);
}

/// A detector run emits one optional event per input.
pub proof fn lemma_run_events_len(d0: SimpleKey, inputs: Seq<KeyState>)
    ensures
        det_run(d0, inputs).1.len() == inputs.len(),
    decreases inputs.len(),
{
    if inputs.len() > 0 {
        lemma_run_events_len(d0, inputs.drop_last());
    }
}

/// Over any run, the emitted `KeyDown`s outnumber the emitted `KeyUp`s by
/// exactly the change in the triggered flag between the first and the last
/// detector state.
pub proof fn lemma_event_balance(d0: SimpleKey, inputs: Seq<KeyState>)
    ensures
        ({
            let run = det_run(d0, inputs);
            count_downs(run.1) - count_ups(run.1) == (if run.0.is_triggered() {
                1int
            } else {
                0int
            }) - (if d0.is_triggered() {
                1int
            } else {
                0int
            })
        }),
    decreases inputs.len(),
{
    if inputs.len() > 0 {
        lemma_event_balance(d0, inputs.drop_last());
        let prev = det_run(d0, inputs.drop_last());
        let step = det_step(prev.0, inputs.last());
        assert(prev.1.push(step.1).drop_last() =~= prev.1);
    }
}

/// Law: for any cell at any point in a session started in `Waiting`, the
/// count of emitted `KeyDown`s minus the count of emitted `KeyUp`s is 0 or
/// 1 — 1 exactly while the detector reports the key asserted.
pub proof fn lemma_down_up_count(id: usize, inputs: Seq<KeyState>)
    ensures
        ({
            let run = det_run(SimpleKey::Waiting { id }, inputs);
            &&& count_downs(run.1) - count_ups(run.1) == if run.0.is_triggered() {
                1int
            } else {
                0int
            }
            &&& 0 <= count_downs(run.1) - count_ups(run.1) <= 1
        }),
{
    lemma_event_balance(SimpleKey::Waiting { id }, inputs);
}

/// The event at position `m` of a run is the one `det_step` emits from the
/// detector state reached on the first `m` inputs, and that step's state is
/// the one reached on the first `m + 1` inputs.
pub proof fn lemma_run_step_at(d0: SimpleKey, inputs: Seq<KeyState>, m: int)
    requires
        0 <= m < inputs.len(),
    ensures
        ({
            let step = det_step(det_run(d0, inputs.take(m)).0, inputs[m]);
            &&& det_run(d0, inputs.take(m + 1)).0 == step.0
            &&& det_run(d0, inputs).1[m] == step.1
        }),
    decreases inputs.len(),
{
    lemma_run_events_len(d0, inputs.drop_last());
    if m == inputs.len() - 1 {
        assert(inputs.take(m) =~= inputs.drop_last());
        assert(inputs.take(m + 1) =~= inputs);
    } else {
        lemma_run_step_at(d0, inputs.drop_last(), m);
        assert(inputs.drop_last().take(m) =~= inputs.take(m));
        assert(inputs.drop_last().take(m + 1) =~= inputs.take(m + 1));
        assert(inputs.drop_last()[m] == inputs[m]);
    }
}

/// Steps that emit no event leave the detector state unchanged: if no event
/// is emitted at positions `a..b`, the state reached on the first `b` inputs
/// equals the one reached on the first `a`.
pub proof fn lemma_quiet_keeps_state(d0: SimpleKey, inputs: Seq<KeyState>, a: int, b: int)
    requires
        0 <= a <= b <= inputs.len(),
        forall|k: int| a <= k < b ==> (#[trigger] det_run(d0, inputs).1[k]) is None,
    ensures
        det_run(d0, inputs.take(b)).0 == det_run(d0, inputs.take(a)).0,
    decreases b - a,
{
    if a < b {
        lemma_run_step_at(d0, inputs, b - 1);
        lemma_quiet_keeps_state(d0, inputs, a, b - 1);
    }
}

/// Law: per cell, emitted events strictly alternate — of two emitted events
/// with only quiet ticks between them, one is a `KeyDown` and the other a
/// `KeyUp`; a cell never emits two `KeyDown`s without an intervening
/// `KeyUp`, or vice versa.
pub proof fn lemma_events_alternate(id: usize, inputs: Seq<KeyState>, i: int, j: int)
    requires
        0 <= i < j < inputs.len(),
        !((det_run(SimpleKey::Waiting { id }, inputs).1[i]) is None),
        !((det_run(SimpleKey::Waiting { id }, inputs).1[j]) is None),
        forall|k: int| i < k < j ==> (#[trigger] det_run(SimpleKey::Waiting { id }, inputs).1[k]) is None,
    ensures
        is_down_event(det_run(SimpleKey::Waiting { id }, inputs).1[i]) <==> is_up_event(
            det_run(SimpleKey::Waiting { id }, inputs).1[j],
        ),
{
    let d0 = SimpleKey::Waiting { id };
    lemma_run_step_at(d0, inputs, i);
    lemma_run_step_at(d0, inputs, j);
    lemma_quiet_keeps_state(d0, inputs, i + 1, j);
}

/// Law: a cell's first emitted event in a session started in `Waiting` is
/// a `KeyDown`, never a `KeyUp`.
pub proof fn lemma_first_event_is_down(id: usize, inputs: Seq<KeyState>, i: int)
    requires
        0 <= i < inputs.len(),
        !((det_run(SimpleKey::Waiting { id }, inputs).1[i]) is None),
        forall|k: int| 0 <= k < i ==> (#[trigger] det_run(SimpleKey::Waiting { id }, inputs).1[k]) is None,
    ensures
        det_run(SimpleKey::Waiting { id }, inputs).1[i] == Some(Event::KeyDown { key: id }),
{
    let d0 = SimpleKey::Waiting { id };
    lemma_run_step_at(d0, inputs, i);
    lemma_quiet_keeps_state(d0, inputs, 0, i);
    assert(inputs.take(0) =~= Seq::<KeyState>::empty());
}

/// Holds one edge detector per grid cell, each permanently bound to the
/// stable flattened id `row * columns + column`, and steps all of them once
/// per tick.
pub struct Mapper {
    /// Number of rows of the grid.
    pub rows: usize,
    /// Number of columns of the grid.
    pub columns: usize,
    /// One detector per cell, row-major; `machines[r][c]` carries id
    /// `r * columns + c`.
    pub machines: Vec<Vec<SimpleKey>>,
}

impl Mapper {
    /// Well-formedness: one detector per cell, the grid's flattened size
    /// fits in a `usize`, and the id-to-position binding is row-major.
    pub open spec fn wf(self) -> bool {
        &&& self.rows * self.columns <= usize::MAX
        &&& self.machines@.len() == self.rows
        &&& forall|r: int| 0 <= r < self.rows ==> (#[trigger] self.machines@[r])@.len() == self.columns
        &&& forall|r: int, c: int|
            0 <= r < self.rows && 0 <= c < self.columns ==> (#[trigger] self.machines@[r]@[c]).id() == r * self.columns + c
    }

    /// A fresh mapper for an R by C grid: every cell's detector starts in
    /// `Waiting`, bound to the row-major flattened id of its position.
    pub fn new(rows: usize, columns: usize) -> (m: Mapper)
        requires
            rows * columns <= usize::MAX,
        ensures
            m.wf(),
            m.rows == rows,
            m.columns == columns,
            forall|r: int, c: int|
                0 <= r < rows && 0 <= c < columns ==> !(#[trigger] m.machines@[r]@[c]).is_triggered(),
    {
        let mut machines: Vec<Vec<SimpleKey>> = Vec::new();
        let mut r: usize = 0;
        while r < rows
            invariant
                rows * columns <= usize::MAX,
                r <= rows,
                machines@.len() == r,
                forall|i: int| 0 <= i < r ==> (#[trigger] machines@[i])@.len() == columns,
                forall|i: int, j: int|
                    0 <= i < r && 0 <= j < columns ==> {
                        &&& (#[trigger] machines@[i]@[j]).id() == i * columns + j
                        &&& !machines@[i]@[j].is_triggered()
                    },
            decreases rows - r,
        {
            let mut row: Vec<SimpleKey> = Vec::new();
            let mut c: usize = 0;
            proof {
                assert(r * columns + columns <= rows * columns) by (nonlinear_arith)
                    requires
                        r < rows,
                        0 <= columns,
                ;
            }
            while c < columns
                invariant
                    rows * columns <= usize::MAX,
                    r < rows,
                    r * columns + columns <= rows * columns,
                    c <= columns,
                    row@.len() == c,
                    forall|j: int|
                        0 <= j < c ==> {
                            &&& (#[trigger] row@[j]).id() == r * columns + j
                            &&& !row@[j].is_triggered()
                        },
                decreases columns - c,
            {
                let id = r * columns + c;
                row.push(SimpleKey::Waiting { id });
                c += 1;
            }
            machines.push(row);
            r += 1;
        }
        Mapper { rows, columns, machines }
    }

    /// One tick: step every cell's detector against the corresponding
    /// stabilized-state cell, returning one optional event per cell in
    /// row-major order.  Purely elementwise; the id binding never changes.
    pub fn step(&mut self, matrix_state: &Vec<Vec<KeyState>>) -> (events: Vec<Option<Event>>)
        requires
            old(self).wf(),
            matrix_state@.len() == old(self).rows,
            forall|r: int| 0 <= r < old(self).rows ==> (#[trigger] matrix_state@[r])@.len() == old(self).columns,
        ensures
            final(self).wf(),
            final(self).rows == old(self).rows,
            final(self).columns == old(self).columns,
            events@.len() == old(self).rows * old(self).columns,
            forall|r: int, c: int|
                0 <= r < old(self).rows && 0 <= c < old(self).columns ==> {
                    let step = det_step(old(self).machines@[r]@[c], #[trigger] matrix_state@[r]@[c]);
                    &&& final(self).machines@[r]@[c] == step.0
                    &&& events@[r * old(self).columns + c] == step.1
                },
    {
        let rows = self.rows;
        let columns = self.columns;
        let mut machines: Vec<Vec<SimpleKey>> = Vec::new();
        let mut events: Vec<Option<Event>> = Vec::new();
        let mut r: usize = 0;
        while r < rows
            invariant
                old(self).wf(),
                *self == *old(self),
                matrix_state@.len() == old(self).rows,
                forall|i: int|
                    0 <= i < old(self).rows ==> (#[trigger] matrix_state@[i])@.len() == old(self).columns,
                rows == old(self).rows,
                columns == old(self).columns,
                r <= rows,
                machines@.len() == r,
                forall|i: int| 0 <= i < r ==> (#[trigger] machines@[i])@.len() == columns,
                events@.len() == r * columns,
                forall|i: int, j: int|
                    0 <= i < r && 0 <= j < columns ==> {
                        let step = det_step(old(self).machines@[i]@[j], #[trigger] matrix_state@[i]@[j]);
                        &&& machines@[i]@[j] == step.0
                        &&& events@[i * columns + j] == step.1
                    },
            decreases rows - r,
        {
            proof {
                assert((r + 1) * columns <= rows * columns && r * columns + columns == (r + 1) * columns)
                    by (nonlinear_arith)
                    requires
                        0 <= r < rows,
                        0 <= columns,
                ;
            }
            let mut row: Vec<SimpleKey> = Vec::new();
            let mut c: usize = 0;
            while c < columns
                invariant
                    old(self).wf(),
                    *self == *old(self),
                    matrix_state@.len() == old(self).rows,
                    forall|i: int|
                        0 <= i < old(self).rows ==> (#[trigger] matrix_state@[i])@.len() == old(self).columns,
                    rows == old(self).rows,
                    columns == old(self).columns,
                    r < rows,
                    r * columns + columns <= rows * columns,
                    machines@.len() == r,
                    forall|i: int| 0 <= i < r ==> (#[trigger] machines@[i])@.len() == columns,
                    c <= columns,
                    row@.len() == c,
                    events@.len() == r * columns + c,
                    forall|i: int, j: int|
                        0 <= i < r && 0 <= j < columns ==> {
                            let step = det_step(old(self).machines@[i]@[j], #[trigger] matrix_state@[i]@[j]);
                            &&& machines@[i]@[j] == step.0
                            &&& events@[i * columns + j] == step.1
                        },
                    forall|j: int|
                        0 <= j < c ==> {
                            let step = det_step(old(self).machines@[r as int]@[j], #[trigger] matrix_state@[r as int]@[j]);
                            &&& row@[j] == step.0
                            &&& events@[r * columns + j] == step.1
                        },
                decreases columns - c,
            {
                proof {
                    assert forall|i: int, j: int| 0 <= i < r && 0 <= j < columns implies (#[trigger] (i
                        * columns + j)) < r * columns by {
                        assert(i * columns + j < r * columns) by (nonlinear_arith)
                            requires
                                0 <= i < r,
                                0 <= j < columns,
                        ;
                    }
                }
                let mut machine = self.machines[r][c];
                let event = machine.step(matrix_state[r][c]);
                row.push(machine);
                events.push(event);
                c += 1;
            }
            machines.push(row);
            r += 1;
        }
        proof {
            assert forall|i: int, j: int| 0 <= i < rows && 0 <= j < columns implies (#[trigger] machines@[i]@[j]).id()
                == i * columns + j by {
                assert(machines@[i]@[j] == det_step(old(self).machines@[i]@[j], matrix_state@[i]@[j]).0);
                assert(old(self).machines@[i]@[j].id() == i * columns + j);
            }
        }
        self.machines = machines;
        events
    }
}

/// Capability supplied by the surrounding driver environment: block until a
/// wake condition (a column-level change) occurs.  Carries no contract: the
/// core only requires that control returns once the condition is satisfied.
pub trait EventSignaler {
    fn event(&mut self);
}

/// Capability supplied by the surrounding driver environment: block for
/// `dt` time units.  Carries no contract: the core only requires that
/// control returns once the duration has elapsed.
pub trait DeltaTimer {
    fn wait(&mut self, dt: usize);
}

} // verus!
