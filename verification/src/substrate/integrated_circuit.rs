use vstd::prelude::*;

use crate::coords::IVec2;
use crate::substrate::atom::{Atom, Cell, MosfetPart};
use crate::substrate::pin::{Pin, PinModule, PinModuleState, PinState, SimTickParams};
use crate::substrate::placement::{is_cardinal, unit_down, unit_left, unit_right, unit_up, Placement};
use crate::substrate::simulation::{propagate_high, spec_gates_in_range, spec_is_propagation, update_gate_states, Gate};
use crate::substrate::small_vec::{cell_atoms, cell_get, cell_len};

verus! {

/// A cell of the circuit and its location.
pub struct CellEntry {
    pub loc: IVec2,
    pub cell: Cell,
}

/// The trace an atom belongs to.
#[derive(Clone, Copy, Debug, PartialEq, Eq, Structural)]
pub struct AtomTrace {
    pub atom: Atom,
    pub trace: usize,
}

/// Stores atoms, indexed across several dimensions: the cells by location, and the traces (the
/// conductive paths) and gates (the MOSFETs) that compiling them gives.
pub struct IntegratedCircuit {
    /// The cells, no two at the same location.
    pub cells: Vec<CellEntry>,
    /// The atoms of each trace. The 0 trace is reserved as the null-trace.
    pub traces: Vec<Vec<Atom>>,
    /// The trace of each explored atom; no atom twice.
    pub trace_lookup_by_atom: Vec<AtomTrace>,
    /// The gates, in the order in which they need to be updated.
    pub gates: Vec<Gate>,
    /// The modules that drive I/O pins.
    pub pin_modules: Vec<PinModule>,
}

/// The simulation state of a circuit.
#[derive(Debug)]
pub struct SimIcState {
    pub params: SimTickParams,
    pub gate_states: Vec<bool>,
    pub trace_states: Vec<bool>,
    pub pin_module_states: Vec<PinModuleState>,
    pub pin_states: Vec<Vec<PinState>>,
}

/// The atoms of the cell at `loc`, if there is one.
pub open spec fn spec_cell_at(cells: Seq<CellEntry>, loc: IVec2) -> Option<Seq<Atom>>
    decreases cells.len(),
{
    if cells.len() == 0 {
        None
    } else if cells[0].loc == loc {
        Some(cell_atoms(cells[0].cell))
    } else {
        spec_cell_at(cells.drop_first(), loc)
    }
}

/// The trace of `atom`, if it was explored.
pub open spec fn spec_trace_of(lookup: Seq<AtomTrace>, atom: Atom) -> Option<usize>
    decreases lookup.len(),
{
    if lookup.len() == 0 {
        None
    } else if lookup[0].atom == atom {
        Some(lookup[0].trace)
    } else {
        spec_trace_of(lookup.drop_first(), atom)
    }
}

/// The location one step from `loc` in direction `dir`, when it has `i32` coordinates.
pub open spec fn spec_step(loc: IVec2, dir: IVec2) -> IVec2 {
    IVec2 { x: (loc.x + dir.x) as i32, y: (loc.y + dir.y) as i32 }
}

/// The step from `loc` in direction `dir` stays within `i32` coordinates.
pub open spec fn spec_step_in_range(loc: IVec2, dir: IVec2) -> bool {
    i32::MIN <= loc.x + dir.x <= i32::MAX && i32::MIN <= loc.y + dir.y <= i32::MAX
}

/// The directions an atom conducts to, on either layer.
pub open spec fn spec_atom_dirs(a: Atom) -> Seq<IVec2> {
    a.metal.spec_bitor(a.si).spec_cardinal_vectors()
}

/// The cells form a circuit that can be compiled: no two cells share a location, every atom sits
/// in the cell at its own location, every direction an atom conducts to leads to a cell, and the
/// cell of a MOSFET base also holds both of the MOSFET's emitter/collector atoms, and no cell
/// holds two different atoms with metal.
pub open spec fn spec_cells_valid(cells: Seq<CellEntry>) -> bool {
    &&& forall|i: int, j: int| 0 <= i < cells.len() && 0 <= j < cells.len() && i != j
        ==> #[trigger] cells[i].loc != #[trigger] cells[j].loc
    &&& forall|i: int, k: int| 0 <= i < cells.len() && 0 <= k < cell_atoms(cells[i].cell).len()
        ==> spec_atom_valid(cells, cells[i].loc, #[trigger] cell_atoms(cells[i].cell)[k], cell_atoms(cells[i].cell))
}

/// The atom `a` of the cell `atoms` at `loc` is placed consistently (see `spec_cells_valid`).
pub open spec fn spec_atom_valid(cells: Seq<CellEntry>, loc: IVec2, a: Atom, atoms: Seq<Atom>) -> bool {
    &&& a.cell_loc == loc
    &&& forall|d: IVec2| #[trigger] spec_atom_dirs(a).contains(d)
        ==> spec_step_in_range(loc, d) && spec_cell_at(cells, spec_step(loc, d)) is Some
    &&& a.mosfet_part == MosfetPart::Base ==> (exists|m: int| 0 <= m < atoms.len() && #[trigger] atoms[m].mosfet_part == MosfetPart::LeftEC)
        && (exists|m: int| 0 <= m < atoms.len() && #[trigger] atoms[m].mosfet_part == MosfetPart::RightEC)
    &&& a.metal != Placement::spec_none() ==> forall|m: int| 0 <= m < atoms.len() && #[trigger] atoms[m].metal != Placement::spec_none() ==> atoms[m] == a
}

/// The atoms of the cell under pin `j` of module `i` (none when there is no cell there).
pub open spec fn spec_pin_atoms(ic: IntegratedCircuit, i: int, j: int) -> Seq<Atom> {
    match spec_cell_at(ic.cells@, ic.pin_modules@[i].spec_pins()[j].cell_loc) {
        Some(atoms) => atoms,
        None => Seq::empty(),
    }
}

impl IntegratedCircuit {
    /// The compiled traces fit the circuit: gates and explored atoms refer to existing traces, and
    /// every metal atom under a pin was explored.
    pub open spec fn spec_traces_valid(self) -> bool {
        &&& spec_gates_in_range(self.gates@, self.traces@.len() as int)
        &&& forall|k: int| 0 <= k < self.trace_lookup_by_atom@.len() ==> (#[trigger] self.trace_lookup_by_atom@[k]).trace < self.traces@.len()
        &&& forall|i: int, j: int, k: int|
            0 <= i < self.pin_modules@.len() && 0 <= j < self.pin_modules@[i].spec_pins().len() && 0 <= k < spec_pin_atoms(self, i, j).len()
                && #[trigger] spec_pin_atoms(self, i, j)[k].metal != Placement::spec_none()
                ==> spec_trace_of(self.trace_lookup_by_atom@, spec_pin_atoms(self, i, j)[k]) is Some
    }

    /// The circuit's cells are valid and its traces were compiled from them.
    pub open spec fn wf(self) -> bool {
        spec_cells_valid(self.cells@) && self.spec_traces_valid()
    }
}

/// A trace found for an atom is one of the lookup's traces.
proof fn lemma_trace_of_in(lookup: Seq<AtomTrace>, atom: Atom)
    ensures
        spec_trace_of(lookup, atom) matches Some(t) ==> exists|k: int| 0 <= k < lookup.len() && (#[trigger] lookup[k]).trace == t,
    decreases lookup.len(),
{
    if lookup.len() > 0 && lookup[0].atom != atom {
        lemma_trace_of_in(lookup.drop_first(), atom);
        if let Some(t) = spec_trace_of(lookup, atom) {
            let k = choose|k: int| 0 <= k < lookup.drop_first().len() && (#[trigger] lookup.drop_first()[k]).trace == t;
            assert(lookup[k + 1] == lookup.drop_first()[k]);
        }
    }
}

impl IntegratedCircuit {
    /// The index of the cell at `loc`, if there is one.
    fn find_cell(&self, loc: &IVec2) -> (r: Option<usize>)
        ensures
            r is None <==> spec_cell_at(self.cells@, *loc) is None,
            r matches Some(i) ==> i < self.cells@.len() && self.cells@[i as int].loc == *loc
                && spec_cell_at(self.cells@, *loc) == Some(cell_atoms(self.cells@[i as int].cell)),
    {
        find_cell_in(&self.cells, loc)
    }

    /// The cell at `cell_loc`, if there is one.
    pub fn get_cell_by_location(&self, cell_loc: &IVec2) -> (r: Option<&Cell>)
        ensures
            r is None <==> spec_cell_at(self.cells@, *cell_loc) is None,
            r matches Some(c) ==> spec_cell_at(self.cells@, *cell_loc) == Some(cell_atoms(*c)),
    {
        match self.find_cell(cell_loc) {
            Some(i) => Some(&self.cells[i].cell),
            None => None,
        }
    }

    /// The trace of `atom`, if it was explored.
    pub fn get_trace_handle_by_atom(&self, atom: &Atom) -> (r: Option<usize>)
        ensures
            r == spec_trace_of(self.trace_lookup_by_atom@, *atom),
    {
        lookup_trace(&self.trace_lookup_by_atom, atom)
    }

    /// A fresh simulation state: tick 0, every gate and trace low, each module in its starting
    /// state and every pin state inactive.
    pub fn build_new_sim_state(&self) -> (r: SimIcState)
        ensures
            r.params.tick == 0,
            r.gate_states@ == Seq::new(self.gates@.len(), |i: int| false),
            r.trace_states@ == Seq::new(self.traces@.len(), |i: int| false),
            r.pin_module_states@.len() == self.pin_modules@.len(),
            r.pin_states@.len() == self.pin_modules@.len(),
            forall|i: int| 0 <= i < self.pin_modules@.len() ==> #[trigger] r.pin_module_states@[i]
                == PinModuleState::spec_instantiate(self.pin_modules@[i]),
            forall|i: int| 0 <= i < self.pin_modules@.len() ==> #[trigger] r.pin_states@[i]@
                == Seq::new(self.pin_modules@[i].spec_pins().len(), |j: int| PinState::spec_default()),
    {
        let gate_states = vec![false; self.gates.len()];
        let trace_states = vec![false; self.traces.len()];
        let mut pin_module_states: Vec<PinModuleState> = Vec::new();
        let mut pin_states: Vec<Vec<PinState>> = Vec::new();
        let mut i: usize = 0;
        while i < self.pin_modules.len()
            invariant
                i <= self.pin_modules@.len(),
                pin_module_states@.len() == i,
                pin_states@.len() == i,
                forall|m: int| 0 <= m < i ==> #[trigger] pin_module_states@[m] == PinModuleState::spec_instantiate(self.pin_modules@[m]),
                forall|m: int| 0 <= m < i ==> #[trigger] pin_states@[m]@
                    == Seq::new(self.pin_modules@[m].spec_pins().len(), |j: int| PinState::spec_default()),
            decreases self.pin_modules@.len() - i,
        {
            let m = &self.pin_modules[i];
            pin_module_states.push(PinModuleState::instantiate(m));
            let n = m.get_pins().len();
            let states = vec![PinState::default(); n];
            assert(states@ =~= Seq::new(self.pin_modules@[i as int].spec_pins().len(), |j: int| PinState::spec_default()));
            pin_states.push(states);
            i = i + 1;
        }
        assert(gate_states@ =~= Seq::new(self.gates@.len(), |i: int| false));
        assert(trace_states@ =~= Seq::new(self.traces@.len(), |i: int| false));
        SimIcState { params: SimTickParams { tick: 0 }, gate_states, trace_states, pin_module_states, pin_states }
    }
}


/// Pin `j` of module `i` drives trace `t` through the `k`-th atom of the cell under it: that atom
/// has metal, belongs to trace `t`, and the pin's input is high.
pub open spec fn spec_drives(ic: IntegratedCircuit, pin_states: Seq<Vec<PinState>>, i: int, j: int, k: int, t: int) -> bool {
    &&& 0 <= i < ic.pin_modules@.len()
    &&& 0 <= j < ic.pin_modules@[i].spec_pins().len()
    &&& 0 <= k < spec_pin_atoms(ic, i, j).len()
    &&& spec_pin_atoms(ic, i, j)[k].metal != Placement::spec_none()
    &&& spec_trace_of(ic.trace_lookup_by_atom@, spec_pin_atoms(ic, i, j)[k]) == Some(t as usize)
    &&& pin_states[i]@[j].input_high
}

/// `(i, j, k)` comes before `(mi, mj, mk)` in lexicographic order.
pub open spec fn spec_before(i: int, j: int, k: int, mi: int, mj: int, mk: int) -> bool {
    i < mi || (i == mi && (j < mj || (j == mj && k < mk)))
}

/// The traces that the pins drive high: the `n` traces, each high when some pin drives it.
pub open spec fn spec_seed(ic: IntegratedCircuit, pin_states: Seq<Vec<PinState>>, n: nat) -> Seq<bool> {
    Seq::new(n, |t: int| exists|i: int, j: int, k: int| #[trigger] spec_drives(ic, pin_states, i, j, k, t))
}

/// The traces driven high by the pins up to (not including) atom `mk` of pin `mj` of module `mi`.
pub open spec fn spec_seed_upto(ic: IntegratedCircuit, pin_states: Seq<Vec<PinState>>, n: nat, mi: int, mj: int, mk: int) -> Seq<bool> {
    Seq::new(n, |t: int| exists|i: int, j: int, k: int| spec_before(i, j, k, mi, mj, mk) && #[trigger] spec_drives(ic, pin_states, i, j, k, t))
}

impl IntegratedCircuit {
    /// The traces the pins drive high (see `spec_seed`).
    fn seed_traces(&self, pin_states: &Vec<Vec<PinState>>, n: usize) -> (r: Vec<bool>)
        requires
            self.wf(),
            n == self.traces@.len(),
            pin_states@.len() == self.pin_modules@.len(),
            forall|i: int| 0 <= i < self.pin_modules@.len() ==> #[trigger] pin_states@[i]@.len() >= self.pin_modules@[i].spec_pins().len(),
        ensures
            r@ == spec_seed(*self, pin_states@, n as nat),
    {
        let mut trace_states = vec![false; n];
        let ghost ps = pin_states@;
        proof {
            assert(trace_states@ =~= spec_seed_upto(*self, ps, n as nat, 0, 0, 0));
        }
        let mut i: usize = 0;
        while i < self.pin_modules.len()
            invariant
                self.wf(),
                n == self.traces@.len(),
                ps == pin_states@,
                pin_states@.len() == self.pin_modules@.len(),
                forall|i: int| 0 <= i < self.pin_modules@.len() ==> #[trigger] pin_states@[i]@.len() >= self.pin_modules@[i].spec_pins().len(),
                i <= self.pin_modules@.len(),
                trace_states@ == spec_seed_upto(*self, ps, n as nat, i as int, 0, 0),
            decreases self.pin_modules@.len() - i,
        {
            let pins = self.pin_modules[i].get_pins();
            let mut j: usize = 0;
            while j < pins.len()
                invariant
                    self.wf(),
                    n == self.traces@.len(),
                    ps == pin_states@,
                    pin_states@.len() == self.pin_modules@.len(),
                    forall|i: int| 0 <= i < self.pin_modules@.len() ==> #[trigger] pin_states@[i]@.len() >= self.pin_modules@[i].spec_pins().len(),
                    i < self.pin_modules@.len(),
                    pins@ == self.pin_modules@[i as int].spec_pins(),
                    j <= pins@.len(),
                    trace_states@ == spec_seed_upto(*self, ps, n as nat, i as int, j as int, 0),
                decreases pins@.len() - j,
            {
                let ghost atoms = spec_pin_atoms(*self, i as int, j as int);
                let high = pin_states[i][j].input_high;
                // Technically an I/O pin doesn't need to correspond with metal in the cell.
                match self.get_cell_by_location(&pins[j].cell_loc) {
                    Some(cell) => {
                        let len = cell_len(cell);
                        let mut k: usize = 0;
                        while k < len
                            invariant
                                self.wf(),
                                n == self.traces@.len(),
                                trace_states@.len() == n,
                                ps == pin_states@,
                                i < self.pin_modules@.len(),
                                j < self.pin_modules@[i as int].spec_pins().len(),
                                atoms == spec_pin_atoms(*self, i as int, j as int),
                                atoms == cell_atoms(*cell),
                                len == atoms.len(),
                                high == ps[i as int]@[j as int].input_high,
                                k <= len,
                                trace_states@ == spec_seed_upto(*self, ps, n as nat, i as int, j as int, k as int),
                            decreases len - k,
                        {
                            let atom = cell_get(cell, k);
                            let ghost before = trace_states@;
                            if atom.metal != Placement::none() {
                                // Get the corresponding trace and update it.
                                let t = self.get_trace_handle_by_atom(&atom).unwrap();
                                proof {
                                    lemma_trace_of_in(self.trace_lookup_by_atom@, atom);
                                }
                                let v = trace_states[t] || high;
                                trace_states.set(t, v);
                                proof {
                                    assert forall|t2: int| 0 <= t2 < n implies #[trigger] trace_states@[t2]
                                        == spec_seed_upto(*self, ps, n as nat, i as int, j as int, k + 1)[t2] by {
                                        lemma_seed_step(*self, ps, n as nat, i as int, j as int, k as int, t2);
                                    }
                                    assert(trace_states@ =~= spec_seed_upto(*self, ps, n as nat, i as int, j as int, k + 1));
                                }
                            } else {
                                proof {
                                    assert forall|t2: int| 0 <= t2 < n implies #[trigger] trace_states@[t2]
                                        == spec_seed_upto(*self, ps, n as nat, i as int, j as int, k + 1)[t2] by {
                                        lemma_seed_step(*self, ps, n as nat, i as int, j as int, k as int, t2);
                                    }
                                    assert(trace_states@ =~= spec_seed_upto(*self, ps, n as nat, i as int, j as int, k + 1));
                                }
                            }
                            k = k + 1;
                        }
                        proof {
                            lemma_seed_next_pin(*self, ps, n as nat, i as int, j as int);
                        }
                    },
                    None => {
                        proof {
                            lemma_seed_next_pin(*self, ps, n as nat, i as int, j as int);
                        }
                    },
                }
                j = j + 1;
            }
            proof {
                lemma_seed_next_module(*self, ps, n as nat, i as int);
            }
            i = i + 1;
        }
        proof {
            assert(trace_states@ =~= spec_seed(*self, ps, n as nat)) by {
                assert forall|t: int| 0 <= t < n implies #[trigger] trace_states@[t] == spec_seed(*self, ps, n as nat)[t] by {
                    if spec_seed(*self, ps, n as nat)[t] {
                        let (i2, j2, k2) = choose|i2: int, j2: int, k2: int| #[trigger] spec_drives(*self, ps, i2, j2, k2, t);
                        assert(spec_before(i2, j2, k2, self.pin_modules@.len() as int, 0, 0));
                    }
                }
            }
        }
        trace_states
    }
}

/// One more atom of the cell under pin `j` of module `i`: the seed gains the atom's trace when the
/// atom has metal and the pin's input is high.
proof fn lemma_seed_step(ic: IntegratedCircuit, ps: Seq<Vec<PinState>>, n: nat, i: int, j: int, k: int, t: int)
    requires
        0 <= i < ic.pin_modules@.len(),
        0 <= j < ic.pin_modules@[i].spec_pins().len(),
        0 <= k < spec_pin_atoms(ic, i, j).len(),
        0 <= t < n,
    ensures
        spec_seed_upto(ic, ps, n, i, j, k + 1)[t] == (spec_seed_upto(ic, ps, n, i, j, k)[t] || spec_drives(ic, ps, i, j, k, t)),
{
    if spec_seed_upto(ic, ps, n, i, j, k + 1)[t] {
        let (i2, j2, k2) = choose|i2: int, j2: int, k2: int| spec_before(i2, j2, k2, i, j, k + 1) && #[trigger] spec_drives(ic, ps, i2, j2, k2, t);
        if !(i2 == i && j2 == j && k2 == k) {
            assert(spec_before(i2, j2, k2, i, j, k));
        }
    }
    if spec_seed_upto(ic, ps, n, i, j, k)[t] {
        let (i2, j2, k2) = choose|i2: int, j2: int, k2: int| spec_before(i2, j2, k2, i, j, k) && #[trigger] spec_drives(ic, ps, i2, j2, k2, t);
        assert(spec_before(i2, j2, k2, i, j, k + 1));
    }
    if spec_drives(ic, ps, i, j, k, t) {
        assert(spec_before(i, j, k, i, j, k + 1));
    }
}

/// Past the last atom of pin `j` of module `i` is the start of pin `j + 1`.
proof fn lemma_seed_next_pin(ic: IntegratedCircuit, ps: Seq<Vec<PinState>>, n: nat, i: int, j: int)
    ensures
        spec_seed_upto(ic, ps, n, i, j, spec_pin_atoms(ic, i, j).len() as int) == spec_seed_upto(ic, ps, n, i, j + 1, 0),
{
    let m = spec_pin_atoms(ic, i, j).len() as int;
    assert forall|t: int| 0 <= t < n implies #[trigger] spec_seed_upto(ic, ps, n, i, j, m)[t] == spec_seed_upto(ic, ps, n, i, j + 1, 0)[t] by {
        if spec_seed_upto(ic, ps, n, i, j, m)[t] {
            let (i2, j2, k2) = choose|i2: int, j2: int, k2: int| spec_before(i2, j2, k2, i, j, m) && #[trigger] spec_drives(ic, ps, i2, j2, k2, t);
            assert(spec_before(i2, j2, k2, i, j + 1, 0));
        }
        if spec_seed_upto(ic, ps, n, i, j + 1, 0)[t] {
            let (i2, j2, k2) = choose|i2: int, j2: int, k2: int| spec_before(i2, j2, k2, i, j + 1, 0) && #[trigger] spec_drives(ic, ps, i2, j2, k2, t);
            assert(spec_before(i2, j2, k2, i, j, m));
        }
    }
    assert(spec_seed_upto(ic, ps, n, i, j, m) =~= spec_seed_upto(ic, ps, n, i, j + 1, 0));
}

/// Past the last pin of module `i` is the start of module `i + 1`.
proof fn lemma_seed_next_module(ic: IntegratedCircuit, ps: Seq<Vec<PinState>>, n: nat, i: int)
    requires
        0 <= i < ic.pin_modules@.len(),
    ensures
        spec_seed_upto(ic, ps, n, i, ic.pin_modules@[i].spec_pins().len() as int, 0) == spec_seed_upto(ic, ps, n, i + 1, 0, 0),
{
    let m = ic.pin_modules@[i].spec_pins().len() as int;
    assert forall|t: int| 0 <= t < n implies #[trigger] spec_seed_upto(ic, ps, n, i, m, 0)[t] == spec_seed_upto(ic, ps, n, i + 1, 0, 0)[t] by {
        if spec_seed_upto(ic, ps, n, i, m, 0)[t] {
            let (i2, j2, k2) = choose|i2: int, j2: int, k2: int| spec_before(i2, j2, k2, i, m, 0) && #[trigger] spec_drives(ic, ps, i2, j2, k2, t);
            assert(spec_before(i2, j2, k2, i + 1, 0, 0));
        }
        if spec_seed_upto(ic, ps, n, i + 1, 0, 0)[t] {
            let (i2, j2, k2) = choose|i2: int, j2: int, k2: int| spec_before(i2, j2, k2, i + 1, 0, 0) && #[trigger] spec_drives(ic, ps, i2, j2, k2, t);
            assert(spec_before(i2, j2, k2, i, m, 0));
        }
    }
    assert(spec_seed_upto(ic, ps, n, i, m, 0) =~= spec_seed_upto(ic, ps, n, i + 1, 0, 0));
}


impl IntegratedCircuit {
    /// The previous state fits this circuit: one level per gate and trace, one module state and
    /// one pin state list per module (with a state for each of its pins), each module can be
    /// updated for the tick, and the tick can be incremented.
    pub open spec fn spec_state_fits(self, st: SimIcState) -> bool {
        &&& st.trace_states@.len() == self.traces@.len()
        &&& st.gate_states@.len() == self.gates@.len()
        &&& st.pin_module_states@.len() == self.pin_modules@.len()
        &&& st.pin_states@.len() == self.pin_modules@.len()
        &&& forall|i: int| 0 <= i < self.pin_modules@.len() ==> (#[trigger] st.pin_states@[i])@.len() >= self.pin_modules@[i].spec_pins().len()
        &&& forall|i: int| 0 <= i < self.pin_modules@.len() ==> (#[trigger] st.pin_module_states@[i]).spec_can_update(st.params)
        &&& st.params.tick < usize::MAX
    }

    /// Steps the simulation one tick: every pin module updates its pins, the traces under the
    /// pins that are driven high go high (all other traces start low), high propagates through
    /// the conducting gates (those conducting in the previous state), then every gate's
    /// conduction is updated from its base trace, and the tick advances.
    pub fn step_simulation_state(&self, previous_state: SimIcState) -> (r: SimIcState)
        requires
            self.wf(),
            self.spec_state_fits(previous_state),
        ensures
            r.params.tick == previous_state.params.tick + 1,
            r.pin_module_states@.len() == self.pin_modules@.len(),
            r.pin_states@.len() == self.pin_modules@.len(),
            forall|i: int| 0 <= i < self.pin_modules@.len() ==> #[trigger] r.pin_module_states@[i]
                == previous_state.pin_module_states@[i].spec_updated(previous_state.params),
            forall|i: int| 0 <= i < self.pin_modules@.len() ==> (#[trigger] r.pin_states@[i])@
                == previous_state.pin_module_states@[i].spec_updated_pins(previous_state.pin_states@[i]@, previous_state.params),
            spec_is_propagation(
                self.gates@,
                previous_state.gate_states@,
                spec_seed(*self, r.pin_states@, self.traces@.len()),
                r.trace_states@,
            ),
            r.gate_states@.len() == self.gates@.len(),
            forall|g: int| 0 <= g < self.gates@.len() ==> #[trigger] r.gate_states@[g] == if self.gates@[g].is_npn {
                r.trace_states@[self.gates@[g].base_trace as int]
            } else {
                !r.trace_states@[self.gates@[g].base_trace as int]
            },
    {
        let SimIcState { params, gate_states, trace_states: previous_traces, pin_module_states, pin_states } = previous_state;
        let mut pin_module_states = pin_module_states;
        let mut pin_states = pin_states;
        let ghost old_modules = pin_module_states@;
        let ghost old_pins = pin_states@;

        // Pull input pin modules.
        let mut i: usize = 0;
        while i < self.pin_modules.len()
            invariant
                i <= self.pin_modules@.len(),
                pin_module_states@.len() == self.pin_modules@.len(),
                pin_states@.len() == self.pin_modules@.len(),
                old_modules.len() == self.pin_modules@.len(),
                old_pins.len() == self.pin_modules@.len(),
                forall|m: int| 0 <= m < self.pin_modules@.len() ==> (#[trigger] old_pins[m])@.len() >= self.pin_modules@[m].spec_pins().len(),
                forall|m: int| 0 <= m < self.pin_modules@.len() ==> (#[trigger] old_modules[m]).spec_can_update(params),
                forall|m: int| 0 <= m < i ==> #[trigger] pin_module_states@[m] == old_modules[m].spec_updated(params),
                forall|m: int| 0 <= m < i ==> (#[trigger] pin_states@[m])@ == old_modules[m].spec_updated_pins(old_pins[m]@, params),
                forall|m: int| i <= m < self.pin_modules@.len() ==> #[trigger] pin_module_states@[m] == old_modules[m],
                forall|m: int| i <= m < self.pin_modules@.len() ==> #[trigger] pin_states@[m] == old_pins[m],
            decreases self.pin_modules@.len() - i,
        {
            let mut module_state = pin_module_states[i].clone();
            let mut states = copy_pin_states(&pin_states[i]);
            proof {
                assert(old_pins[i as int]@.len() >= self.pin_modules@[i as int].spec_pins().len());
                match self.pin_modules@[i as int] {
                    PinModule::Clock { .. } => {},
                }
            }
            module_state.update_pin_state_inputs(&mut states, &params);
            pin_module_states.set(i, module_state);
            pin_states.set(i, states);
            i = i + 1;
        }

        // Pull the pin states and write them to their corresponding trace.
        proof {
            assert forall|m: int| 0 <= m < self.pin_modules@.len() implies #[trigger] pin_states@[m]@.len() >= self.pin_modules@[m].spec_pins().len() by {
                match old_modules[m] {
                    PinModuleState::Clock { .. } => {},
                }
            }
        }
        let mut trace_states = self.seed_traces(&pin_states, previous_traces.len());

        // Propagate 'high' signals through the graph.
        let ghost seed = trace_states@;
        propagate_high(&self.gates, &gate_states, &mut trace_states);

        // Update gate states
        let mut gate_states = gate_states;
        update_gate_states(&self.gates, &trace_states, &mut gate_states);

        SimIcState {
            params: SimTickParams { tick: params.tick + 1 },
            gate_states,
            trace_states,
            pin_module_states,
            pin_states,
        }
    }
}


/// A copy of a list of pin states.
fn copy_pin_states(v: &Vec<PinState>) -> (r: Vec<PinState>)
    ensures
        r@ == v@,
{
    let mut r: Vec<PinState> = Vec::new();
    let mut i: usize = 0;
    while i < v.len()
        invariant
            i <= v@.len(),
            r@ =~= v@.take(i as int),
        decreases v@.len() - i,
    {
        r.push(v[i]);
        i = i + 1;
    }
    r
}


/// The atom `o` is one of the atoms of the cell at its own location.
pub open spec fn spec_in_cell(cells: Seq<CellEntry>, o: Atom) -> bool {
    spec_cell_at(cells, o.cell_loc) matches Some(atoms) && atoms.contains(o)
}

/// `o` is a conductive neighbor of `a`: an atom of an adjacent cell that connects with `a` on the
/// metal or the si layer.
pub open spec fn spec_is_neighbor(cells: Seq<CellEntry>, a: Atom, o: Atom) -> bool {
    spec_in_cell(cells, o) && a.spec_adjacent(o) && a.spec_neighbor_of(o)
}

/// `o` is another part of the MOSFET that `a` is a part of.
pub open spec fn spec_is_mosfet_sibling(cells: Seq<CellEntry>, a: Atom, o: Atom) -> bool {
    spec_in_cell(cells, o) && o.cell_loc == a.cell_loc && a.mosfet_part != MosfetPart::Absent && o.mosfet_part != MosfetPart::Absent
}

/// The atoms of all cells, cell after cell.
pub open spec fn spec_flat(cells: Seq<CellEntry>) -> Seq<Atom>
    decreases cells.len(),
{
    if cells.len() == 0 {
        Seq::empty()
    } else {
        cell_atoms(cells[0].cell) + spec_flat(cells.drop_first())
    }
}

/// The number of atoms of `flat` that are not explored.
pub open spec fn spec_unexplored(flat: Seq<Atom>, lookup: Seq<AtomTrace>) -> nat
    decreases flat.len(),
{
    if flat.len() == 0 {
        0
    } else {
        (if spec_trace_of(lookup, flat.last()) is None { 1nat } else { 0nat }) + spec_unexplored(flat.drop_last(), lookup)
    }
}

/// The cell found at `loc` is the cell of an entry at `loc`.
pub(crate) proof fn lemma_cell_at_entry(cells: Seq<CellEntry>, loc: IVec2)
    ensures
        spec_cell_at(cells, loc) matches Some(atoms) ==> exists|i: int| 0 <= i < cells.len() && (#[trigger] cells[i]).loc == loc
            && cell_atoms(cells[i].cell) == atoms,
        spec_cell_at(cells, loc) is None ==> forall|i: int| 0 <= i < cells.len() ==> (#[trigger] cells[i]).loc != loc,
    decreases cells.len(),
{
    if cells.len() > 0 && cells[0].loc != loc {
        let d = cells.drop_first();
        lemma_cell_at_entry(d, loc);
        if let Some(atoms) = spec_cell_at(cells, loc) {
            let i = choose|i: int| 0 <= i < d.len() && (#[trigger] d[i]).loc == loc && cell_atoms(d[i].cell) == atoms;
            assert(cells[i + 1] == d[i]);
        } else {
            assert forall|i: int| 0 <= i < cells.len() implies (#[trigger] cells[i]).loc != loc by {
                if i > 0 {
                    assert(cells[i] == d[i - 1]);
                }
            }
        }
    }
}

/// Every atom of a cell is an atom of the flattened cells.
proof fn lemma_cell_at_flat(cells: Seq<CellEntry>, loc: IVec2, o: Atom)
    requires
        spec_cell_at(cells, loc) matches Some(atoms) && atoms.contains(o),
    ensures
        spec_flat(cells).contains(o),
    decreases cells.len(),
{
    let f = spec_flat(cells);
    let c0 = cell_atoms(cells[0].cell);
    if cells[0].loc == loc {
        let m = choose|m: int| 0 <= m < c0.len() && c0[m] == o;
        assert(f[m] == o);
    } else {
        lemma_cell_at_flat(cells.drop_first(), loc, o);
        let rest = spec_flat(cells.drop_first());
        let m = choose|m: int| 0 <= m < rest.len() && rest[m] == o;
        assert(f[c0.len() + m] == o);
    }
}

/// In valid cells, the atoms of the cell at `loc` sit at `loc` and each is valid.
proof fn lemma_cell_atoms_valid(cells: Seq<CellEntry>, loc: IVec2)
    requires
        spec_cells_valid(cells),
    ensures
        spec_cell_at(cells, loc) matches Some(atoms) ==> forall|k: int| 0 <= k < atoms.len()
            ==> #[trigger] atoms[k].cell_loc == loc && spec_atom_valid(cells, loc, atoms[k], atoms),
{
    lemma_cell_at_entry(cells, loc);
    if let Some(atoms) = spec_cell_at(cells, loc) {
        let i = choose|i: int| 0 <= i < cells.len() && (#[trigger] cells[i]).loc == loc && cell_atoms(cells[i].cell) == atoms;
        assert forall|k: int| 0 <= k < atoms.len() implies #[trigger] atoms[k].cell_loc == loc && spec_atom_valid(cells, loc, atoms[k], atoms) by {
            assert(cell_atoms(cells[i].cell)[k] == atoms[k]);
        }
    }
}

/// Adding a not yet explored atom to the lookup explores exactly that atom more.
proof fn lemma_trace_of_push(lookup: Seq<AtomTrace>, e: AtomTrace, b: Atom)
    requires
        spec_trace_of(lookup, e.atom) is None,
    ensures
        spec_trace_of(lookup.push(e), b) == if spec_trace_of(lookup, b) is Some {
            spec_trace_of(lookup, b)
        } else if b == e.atom {
            Some(e.trace)
        } else {
            None
        },
    decreases lookup.len(),
{
    let p = lookup.push(e);
    if lookup.len() == 0 {
        assert(p[0] == e);
        assert(p.drop_first() =~= Seq::<AtomTrace>::empty());
        assert(spec_trace_of(p.drop_first(), b) is None);
        assert(spec_trace_of(lookup, b) is None);
    } else {
        assert(p[0] == lookup[0]);
        assert(lookup[0].atom != e.atom);
        assert(p.drop_first() =~= lookup.drop_first().push(e));
        if lookup[0].atom != b {
            lemma_trace_of_push(lookup.drop_first(), e, b);
        }
    }
}

/// Exploring an atom of `flat` that was not explored lowers the unexplored count; exploring any
/// new atom never raises it.
proof fn lemma_unexplored_push(flat: Seq<Atom>, lookup: Seq<AtomTrace>, e: AtomTrace)
    requires
        spec_trace_of(lookup, e.atom) is None,
    ensures
        spec_unexplored(flat, lookup.push(e)) <= spec_unexplored(flat, lookup),
        flat.contains(e.atom) ==> spec_unexplored(flat, lookup.push(e)) < spec_unexplored(flat, lookup),
    decreases flat.len(),
{
    if flat.len() > 0 {
        let d = flat.drop_last();
        lemma_unexplored_push(d, lookup, e);
        lemma_trace_of_push(lookup, e, flat.last());
        if flat.contains(e.atom) && flat.last() != e.atom {
            let m = choose|m: int| 0 <= m < flat.len() && flat[m] == e.atom;
            assert(d[m] == e.atom);
        }
    }
}


proof fn lemma_contains_push<T>(s: Seq<T>, x: T, y: T)
    requires
        s.contains(y) || x == y,
    ensures
        s.push(x).contains(y),
{
    if s.contains(y) {
        let m = choose|m: int| 0 <= m < s.len() && s[m] == y;
        assert(s.push(x)[m] == y);
    } else {
        assert(s.push(x)[s.len() as int] == y);
    }
}

impl IntegratedCircuit {
    /// For each pin, in module order then pin order, the first atom with metal of the cell under
    /// it (pins without a cell, or whose cell has no metal, give nothing).
    fn pin_seed_atoms(&self) -> (r: Vec<Atom>)
        requires
            spec_cells_valid(self.cells@),
        ensures
            forall|m: int| 0 <= m < r@.len() ==> spec_in_cell(self.cells@, #[trigger] r@[m]),
            forall|i: int, j: int, k: int|
                0 <= i < self.pin_modules@.len() && 0 <= j < self.pin_modules@[i].spec_pins().len() && 0 <= k < spec_pin_atoms(*self, i, j).len()
                    && #[trigger] spec_pin_atoms(*self, i, j)[k].metal != Placement::spec_none()
                    ==> r@.contains(spec_pin_atoms(*self, i, j)[k]),
    {
        let mut r: Vec<Atom> = Vec::new();
        let mut i: usize = 0;
        while i < self.pin_modules.len()
            invariant
                spec_cells_valid(self.cells@),
                i <= self.pin_modules@.len(),
                forall|m: int| 0 <= m < r@.len() ==> spec_in_cell(self.cells@, #[trigger] r@[m]),
                forall|i2: int, j: int, k: int|
                    0 <= i2 < i && 0 <= j < self.pin_modules@[i2].spec_pins().len() && 0 <= k < spec_pin_atoms(*self, i2, j).len()
                        && #[trigger] spec_pin_atoms(*self, i2, j)[k].metal != Placement::spec_none()
                        ==> r@.contains(spec_pin_atoms(*self, i2, j)[k]),
            decreases self.pin_modules@.len() - i,
        {
            let pins = self.pin_modules[i].get_pins();
            let mut j: usize = 0;
            while j < pins.len()
                invariant
                    spec_cells_valid(self.cells@),
                    i < self.pin_modules@.len(),
                    pins@ == self.pin_modules@[i as int].spec_pins(),
                    j <= pins@.len(),
                    forall|m: int| 0 <= m < r@.len() ==> spec_in_cell(self.cells@, #[trigger] r@[m]),
                    forall|i2: int, j2: int, k: int|
                        (0 <= i2 < i || (i2 == i && 0 <= j2 < j)) && 0 <= j2 < self.pin_modules@[i2].spec_pins().len()
                            && 0 <= k < spec_pin_atoms(*self, i2, j2).len()
                            && #[trigger] spec_pin_atoms(*self, i2, j2)[k].metal != Placement::spec_none()
                            ==> r@.contains(spec_pin_atoms(*self, i2, j2)[k]),
                decreases pins@.len() - j,
            {
                let loc = pins[j].cell_loc;
                let ghost atoms = spec_pin_atoms(*self, i as int, j as int);
                proof {
                    lemma_cell_atoms_valid(self.cells@, loc);
                }
                match self.get_cell_by_location(&loc) {
                    Some(cell) => {
                        let len = cell_len(cell);
                        let mut k: usize = 0;
                        while k < len
                            invariant
                                atoms == cell_atoms(*cell),
                                len == atoms.len(),
                                k <= len,
                                forall|m: int| 0 <= m < k ==> (#[trigger] atoms[m]).metal == Placement::spec_none(),
                            ensures
                                k <= len,
                                forall|m: int| 0 <= m < k ==> (#[trigger] atoms[m]).metal == Placement::spec_none(),
                                k < len ==> atoms[k as int].metal != Placement::spec_none(),
                            decreases len - k,
                        {
                            if cell_get(cell, k).metal != Placement::none() {
                                break;
                            }
                            k = k + 1;
                        }
                        if k < len {
                            let atom = cell_get(cell, k);
                            let ghost before = r@;
                            r.push(atom);
                            proof {
                                assert(atoms[k as int].cell_loc == loc);
                                assert(atoms.contains(atom));
                                assert forall|m: int| 0 <= m < r@.len() implies spec_in_cell(self.cells@, #[trigger] r@[m]) by {
                                    if m < before.len() {
                                        assert(r@[m] == before[m]);
                                    }
                                }
                                assert forall|i2: int, j2: int, k2: int|
                                    (0 <= i2 < i || (i2 == i && 0 <= j2 < j + 1)) && 0 <= j2 < self.pin_modules@[i2].spec_pins().len()
                                        && 0 <= k2 < spec_pin_atoms(*self, i2, j2).len()
                                        && #[trigger] spec_pin_atoms(*self, i2, j2)[k2].metal != Placement::spec_none()
                                        implies r@.contains(spec_pin_atoms(*self, i2, j2)[k2]) by {
                                    if i2 == i && j2 == j {
                                        assert(spec_atom_valid(self.cells@, loc, atoms[k as int], atoms));
                                        assert(atoms[k2] == atom);
                                        lemma_contains_push(before, atom, atom);
                                    } else {
                                        lemma_contains_push(before, atom, spec_pin_atoms(*self, i2, j2)[k2]);
                                    }
                                }
                            }
                        }
                    },
                    None => {},
                }
                j = j + 1;
            }
            i = i + 1;
        }
        r
    }
}


/// A placement that reaches out in a cardinal direction lists it among its cardinal vectors, and
/// all the vectors it lists are cardinal.
proof fn lemma_cardinal_vectors(p: Placement, d: IVec2)
    ensures
        is_cardinal(d) && p.spec_has_cardinal(d) ==> p.spec_cardinal_vectors().contains(d),
        forall|m: int| 0 <= m < p.spec_cardinal_vectors().len() ==> is_cardinal(#[trigger] p.spec_cardinal_vectors()[m]),
{
    let s0 = Seq::<IVec2>::empty();
    let s1 = if p.up { s0.push(unit_up()) } else { s0 };
    let s2 = if p.right { s1.push(unit_right()) } else { s1 };
    let s3 = if p.down { s2.push(unit_down()) } else { s2 };
    let s4 = if p.left { s3.push(unit_left()) } else { s3 };
    assert(s4 == p.spec_cardinal_vectors());
    assert forall|m: int| 0 <= m < s4.len() implies is_cardinal(#[trigger] s4[m]) by {
        assert forall|m2: int| 0 <= m2 < s1.len() implies is_cardinal(#[trigger] s1[m2]) by {}
        assert forall|m2: int| 0 <= m2 < s2.len() implies is_cardinal(#[trigger] s2[m2]) by {
            if m2 < s1.len() && p.right { assert(s2[m2] == s1[m2]); }
        }
        assert forall|m2: int| 0 <= m2 < s3.len() implies is_cardinal(#[trigger] s3[m2]) by {
            if m2 < s2.len() && p.down { assert(s3[m2] == s2[m2]); }
        }
        if m < s3.len() && p.left { assert(s4[m] == s3[m]); }
    }
    if is_cardinal(d) && p.spec_has_cardinal(d) {
        if d.x == 0 && d.y == 1 {
            assert(s1[0] == d);
            assert(s1.contains(d));
            if p.right { lemma_contains_push(s1, unit_right(), d); }
            if p.down { lemma_contains_push(s2, unit_down(), d); }
            if p.left { lemma_contains_push(s3, unit_left(), d); }
        } else if d.x == 1 && d.y == 0 {
            lemma_contains_push(s1, unit_right(), d);
            if p.down { lemma_contains_push(s2, unit_down(), d); }
            if p.left { lemma_contains_push(s3, unit_left(), d); }
        } else if d.x == 0 && d.y == -1 {
            lemma_contains_push(s2, unit_down(), d);
            if p.left { lemma_contains_push(s3, unit_left(), d); }
        } else {
            lemma_contains_push(s3, unit_left(), d);
        }
    }
}

/// Being conductive neighbors is symmetric.
proof fn lemma_neighbor_symmetric(cells: Seq<CellEntry>, a: Atom, o: Atom)
    requires
        spec_in_cell(cells, a),
        spec_is_neighbor(cells, a, o),
    ensures
        spec_is_neighbor(cells, o, a),
{
}

/// The traces and gates that exploring from `seeds` gives (see `IntegratedCircuit::explore_traces`).
pub open spec fn spec_exploration(cells: Seq<CellEntry>, seeds: Seq<Atom>, traces: Seq<Vec<Atom>>, lookup: Seq<AtomTrace>, base_atoms: Seq<Atom>) -> bool {
    &&& traces.len() >= 1
    &&& traces[0]@.len() == 0
    &&& forall|k: int| 0 <= k < lookup.len() ==> 1 <= (#[trigger] lookup[k]).trace < traces.len()
    &&& forall|k: int| 0 <= k < lookup.len() ==> spec_in_cell(cells, (#[trigger] lookup[k]).atom)
    &&& forall|k: int| 0 <= k < lookup.len() ==> spec_trace_of(lookup, (#[trigger] lookup[k]).atom) == Some(lookup[k].trace)
    &&& forall|k: int, o: Atom| 0 <= k < lookup.len() && #[trigger] spec_is_neighbor(cells, lookup[k].atom, o)
        ==> spec_trace_of(lookup, o) == Some(lookup[k].trace)
    &&& forall|k: int, o: Atom| 0 <= k < lookup.len() && #[trigger] spec_is_mosfet_sibling(cells, lookup[k].atom, o)
        ==> spec_trace_of(lookup, o) is Some
    &&& forall|m: int| 0 <= m < seeds.len() ==> spec_trace_of(lookup, #[trigger] seeds[m]) is Some
    &&& forall|t: int, m: int| 0 <= t < traces.len() && 0 <= m < traces[t]@.len()
        ==> spec_trace_of(lookup, #[trigger] traces[t]@[m]) == Some(t as usize)
    &&& forall|m: int| 0 <= m < base_atoms.len() ==> (#[trigger] base_atoms[m]).mosfet_part == MosfetPart::Base
        && spec_trace_of(lookup, base_atoms[m]) is Some && spec_in_cell(cells, base_atoms[m])
    &&& forall|k: int| 0 <= k < lookup.len() && (#[trigger] lookup[k]).atom.mosfet_part == MosfetPart::Base
        ==> base_atoms.contains(lookup[k].atom)
}


/// The direction from `a`'s cell to `o`'s cell.
pub open spec fn spec_dir(a: Atom, o: Atom) -> IVec2 {
    IVec2 { x: (o.cell_loc.x - a.cell_loc.x) as i32, y: (o.cell_loc.y - a.cell_loc.y) as i32 }
}

/// An atom of valid cells is valid.
proof fn lemma_in_cell_valid(cells: Seq<CellEntry>, x: Atom)
    requires
        spec_cells_valid(cells),
        spec_in_cell(cells, x),
    ensures
        spec_cell_at(cells, x.cell_loc) matches Some(atoms) && spec_atom_valid(cells, x.cell_loc, x, atoms),
{
    lemma_cell_atoms_valid(cells, x.cell_loc);
    let atoms = spec_cell_at(cells, x.cell_loc)->0;
    let m = choose|m: int| 0 <= m < atoms.len() && atoms[m] == x;
    assert(atoms[m].cell_loc == x.cell_loc);
}

impl IntegratedCircuit {
    /// Appends to `tq` every atom of the cells next to `x` that conducts with `x`.
    fn push_neighbors(&self, x: &Atom, tq: &mut Vec<Atom>)
        requires
            spec_cells_valid(self.cells@),
            spec_in_cell(self.cells@, *x),
        ensures
            final(tq)@.len() >= old(tq)@.len(),
            forall|m: int| 0 <= m < old(tq)@.len() ==> #[trigger] final(tq)@[m] == old(tq)@[m],
            forall|m: int| old(tq)@.len() <= m < final(tq)@.len() ==> spec_is_neighbor(self.cells@, *x, #[trigger] final(tq)@[m]),
            forall|o: Atom| #[trigger] spec_is_neighbor(self.cells@, *x, o)
                ==> exists|m: int| old(tq)@.len() <= m < final(tq)@.len() && final(tq)@[m] == o,
    {
        let ghost start = tq@.len();
        let ghost start_q = tq@;
        let ghost cells = self.cells@;
        proof {
            lemma_in_cell_valid(cells, *x);
        }
        let p = x.metal.bitor(x.si);
        let dirs = p.cardinal_vectors();
        let n = crate::substrate::small_vec::dir_vec_len(&dirs);
        let ghost dv = crate::substrate::small_vec::dir_vec_items(dirs);
        proof {
            lemma_cardinal_vectors(p, IVec2 { x: 0, y: 0 });
        }
        let mut di: usize = 0;
        while di < n
            invariant
                spec_cells_valid(cells),
                cells == self.cells@,
                spec_in_cell(cells, *x),
                spec_cell_at(cells, x.cell_loc) matches Some(atoms) && spec_atom_valid(cells, x.cell_loc, *x, atoms),
                p == x.metal.spec_bitor(x.si),
                dv == crate::substrate::small_vec::dir_vec_items(dirs),
                dv == p.spec_cardinal_vectors(),
                n == dv.len(),
                di <= n,
                tq@.len() >= start,
                forall|m: int| 0 <= m < start ==> #[trigger] tq@[m] == start_q[m],
                forall|m: int| start <= m < tq@.len() ==> spec_is_neighbor(cells, *x, #[trigger] tq@[m]),
                forall|o: Atom| #[trigger] spec_is_neighbor(cells, *x, o) && dv.subrange(0, di as int).contains(spec_dir(*x, o))
                    ==> exists|m: int| start <= m < tq@.len() && tq@[m] == o,
            decreases n - di,
        {
            let d = crate::substrate::small_vec::dir_vec_get(&dirs, di);
            proof {
                assert(spec_atom_dirs(*x).contains(d)) by {
                    assert(dv[di as int] == d);
                }
                assert(is_cardinal(d));
            }
            let loc2 = x.cell_loc.add(d);
            let ghost before_dir = tq@;
            match self.get_cell_by_location(&loc2) {
                Some(cell) => {
                    let len = cell_len(cell);
                    let ghost atoms2 = cell_atoms(*cell);
                    proof {
                        lemma_cell_atoms_valid(cells, loc2);
                    }
                    let mut k: usize = 0;
                    while k < len
                        invariant
                            cells == self.cells@,
                            spec_cells_valid(cells),
                            atoms2 == cell_atoms(*cell),
                            spec_cell_at(cells, loc2) == Some(atoms2),
                            forall|kk: int| 0 <= kk < atoms2.len() ==> (#[trigger] atoms2[kk]).cell_loc == loc2,
                            loc2.x == x.cell_loc.x + d.x,
                            loc2.y == x.cell_loc.y + d.y,
                            is_cardinal(d),
                            len == atoms2.len(),
                            k <= len,
                            tq@.len() >= before_dir.len(),
                            before_dir.len() >= start,
                            forall|m: int| 0 <= m < before_dir.len() ==> #[trigger] tq@[m] == before_dir[m],
                            forall|m: int| start <= m < tq@.len() ==> spec_is_neighbor(cells, *x, #[trigger] tq@[m]),
                            forall|kk: int| 0 <= kk < k && #[trigger] x.spec_neighbor_of(atoms2[kk])
                                ==> exists|m: int| start <= m < tq@.len() && tq@[m] == atoms2[kk],
                        decreases len - k,
                    {
                        let o = cell_get(cell, k);
                        proof {
                            assert(atoms2[k as int] == o);
                            assert(o.cell_loc == loc2);
                        }
                        if x.neighbor_of(&o) {
                            let ghost b = tq@;
                            tq.push(o);
                            proof {
                                assert(atoms2.contains(o));
                                assert(spec_is_neighbor(cells, *x, o));
                                assert(tq@[b.len() as int] == o);
                                assert forall|kk: int| 0 <= kk < k + 1 && #[trigger] x.spec_neighbor_of(atoms2[kk])
                                    implies exists|m: int| start <= m < tq@.len() && tq@[m] == atoms2[kk] by {
                                    if kk < k {
                                        let m = choose|m: int| start <= m < b.len() && b[m] == atoms2[kk];
                                        assert(tq@[m] == b[m]);
                                    } else {
                                        assert(tq@[b.len() as int] == atoms2[kk]);
                                    }
                                }
                            }
                        }
                        k = k + 1;
                    }
                },
                None => {
                    proof {
                        assert(false);
                    }
                },
            }
            proof {
                assert forall|o: Atom| #[trigger] spec_is_neighbor(cells, *x, o) && dv.subrange(0, di + 1).contains(spec_dir(*x, o))
                    implies exists|m: int| start <= m < tq@.len() && tq@[m] == o by {
                    let w = choose|w: int| 0 <= w < di + 1 && #[trigger] dv.subrange(0, di + 1)[w] == spec_dir(*x, o);
                    if w < di {
                        assert(dv.subrange(0, di as int)[w] == spec_dir(*x, o));
                        let m = choose|m: int| start <= m < before_dir.len() && before_dir[m] == o;
                        assert(tq@[m] == before_dir[m]);
                    } else {
                        assert(spec_dir(*x, o) == d);
                        assert(o.cell_loc == loc2);
                        let atoms2 = spec_cell_at(cells, loc2)->0;
                        assert(atoms2.contains(o));
                        let kk = choose|kk: int| 0 <= kk < atoms2.len() && atoms2[kk] == o;
                        assert(x.spec_neighbor_of(atoms2[kk]));
                    }
                }
            }
            di = di + 1;
        }
        proof {
            assert forall|o: Atom| #[trigger] spec_is_neighbor(cells, *x, o)
                implies exists|m: int| start <= m < tq@.len() && tq@[m] == o by {
                let dd = spec_dir(*x, o);
                lemma_cardinal_vectors(p, dd);
                assert(dv.subrange(0, n as int) =~= dv);
            }
        }
    }
}


/// The trace of `atom` in `lookup`, if it was explored.
fn lookup_trace(lookup: &Vec<AtomTrace>, atom: &Atom) -> (r: Option<usize>)
    ensures
        r == spec_trace_of(lookup@, *atom),
{
    let mut i: usize = 0;
    assert(lookup@.skip(0) =~= lookup@);
    while i < lookup.len()
        invariant
            i <= lookup@.len(),
            spec_trace_of(lookup@, *atom) == spec_trace_of(lookup@.skip(i as int), *atom),
        decreases lookup@.len() - i,
    {
        assert(lookup@.skip(i as int)[0] == lookup@[i as int]);
        let entry = lookup[i];
        if entry.atom == *atom {
            return Some(entry.trace);
        }
        assert(lookup@.skip(i as int).drop_first() =~= lookup@.skip(i + 1));
        i = i + 1;
    }
    None
}

/// A trace found for an atom comes from an entry for that atom.
proof fn lemma_trace_of_entry(lookup: Seq<AtomTrace>, atom: Atom)
    ensures
        spec_trace_of(lookup, atom) matches Some(t) ==> exists|k: int| 0 <= k < lookup.len() && (#[trigger] lookup[k]).atom == atom
            && lookup[k].trace == t,
    decreases lookup.len(),
{
    if lookup.len() > 0 && lookup[0].atom != atom {
        lemma_trace_of_entry(lookup.drop_first(), atom);
        if let Some(t) = spec_trace_of(lookup, atom) {
            let k = choose|k: int| 0 <= k < lookup.drop_first().len() && (#[trigger] lookup.drop_first()[k]).atom == atom
                && lookup.drop_first()[k].trace == t;
            assert(lookup[k + 1] == lookup.drop_first()[k]);
        }
    } else if lookup.len() > 0 {
        assert(lookup[0].atom == atom);
    }
}


impl IntegratedCircuit {
    /// Explores the traces breadth-first from `seeds`: each unexplored atom taken off the queue
    /// starts a new trace, which grows over conductive neighbors; the other parts of each MOSFET
    /// met on the way join the queue. Returns the traces (the 0 trace is the null-trace), the
    /// trace of each explored atom, and the MOSFET base atoms in the order they were explored.
    fn explore_traces(&self, seeds: Vec<Atom>) -> (r: (Vec<Vec<Atom>>, Vec<AtomTrace>, Vec<Atom>))
        requires
            spec_cells_valid(self.cells@),
            forall|m: int| 0 <= m < seeds@.len() ==> spec_in_cell(self.cells@, #[trigger] seeds@[m]),
        ensures
            spec_exploration(self.cells@, seeds@, r.0@, r.1@, r.2@),
    {
        let ghost cells = self.cells@;
        let ghost flat = spec_flat(cells);
        let ghost seeds_v = seeds@;
        let mut traces: Vec<Vec<Atom>> = Vec::new();
        // The 0 trace is reserved as the null-trace.
        traces.push(Vec::new());
        let mut lookup: Vec<AtomTrace> = Vec::new();
        let mut base_atoms: Vec<Atom> = Vec::new();
        let mut queue = seeds;
        let mut head: usize = 0;
        while head < queue.len()
            invariant
                cells == self.cells@,
                spec_cells_valid(cells),
                flat == spec_flat(cells),
                traces@.len() >= 1,
                traces@[0]@.len() == 0,
                head <= queue@.len(),
                queue@.len() >= seeds_v.len(),
                forall|m: int| 0 <= m < seeds_v.len() ==> #[trigger] queue@[m] == seeds_v[m],
                forall|m: int| 0 <= m < queue@.len() ==> spec_in_cell(cells, #[trigger] queue@[m]),
                forall|m: int| 0 <= m < head ==> spec_trace_of(lookup@, #[trigger] queue@[m]) is Some,
                forall|k: int| 0 <= k < lookup@.len() ==> 1 <= (#[trigger] lookup@[k]).trace < traces@.len(),
                forall|k: int| 0 <= k < lookup@.len() ==> spec_in_cell(cells, (#[trigger] lookup@[k]).atom),
                forall|k: int| 0 <= k < lookup@.len() ==> spec_trace_of(lookup@, (#[trigger] lookup@[k]).atom) == Some(lookup@[k].trace),
                forall|k: int, o: Atom| 0 <= k < lookup@.len() && #[trigger] spec_is_neighbor(cells, lookup@[k].atom, o)
                    ==> spec_trace_of(lookup@, o) == Some(lookup@[k].trace),
                forall|k: int, o: Atom| 0 <= k < lookup@.len() && #[trigger] spec_is_mosfet_sibling(cells, lookup@[k].atom, o)
                    ==> spec_trace_of(lookup@, o) is Some || exists|m: int| head <= m < queue@.len() && queue@[m] == o,
                forall|t: int, m: int| 0 <= t < traces@.len() && 0 <= m < traces@[t]@.len()
                    ==> spec_trace_of(lookup@, #[trigger] traces@[t]@[m]) == Some(t as usize),
                forall|m: int| 0 <= m < base_atoms@.len() ==> (#[trigger] base_atoms@[m]).mosfet_part == MosfetPart::Base
                    && spec_trace_of(lookup@, base_atoms@[m]) is Some && spec_in_cell(cells, base_atoms@[m]),
                forall|k: int| 0 <= k < lookup@.len() && (#[trigger] lookup@[k]).atom.mosfet_part == MosfetPart::Base
                    ==> base_atoms@.contains(lookup@[k].atom),
            decreases spec_unexplored(flat, lookup@), queue@.len() - head,
        {
            let atom = queue[head];
            head = head + 1;

            // Check if the atom was already explored.
            if lookup_trace(&lookup, &atom).is_some() {
                proof {
                    assert forall|k: int, o: Atom| 0 <= k < lookup@.len() && #[trigger] spec_is_mosfet_sibling(cells, lookup@[k].atom, o)
                        implies spec_trace_of(lookup@, o) is Some || exists|m: int| head <= m < queue@.len() && queue@[m] == o by {
                        if !(spec_trace_of(lookup@, o) is Some) {
                            let m = choose|m: int| head - 1 <= m < queue@.len() && queue@[m] == o;
                            assert(m != head - 1);
                        }
                    }
                }
                continue;
            }

            // It's a new trace, search the trace atoms and add them.
            let ghost start_unexplored = spec_unexplored(flat, lookup@);
            let ghost queue_head = head;
            let trace_idx = traces.len();
            let mut trace: Vec<Atom> = Vec::new();
            let mut tq: Vec<Atom> = Vec::new();
            tq.push(atom);
            let mut th: usize = 0;
            while th < tq.len()
                invariant
                    cells == self.cells@,
                    spec_cells_valid(cells),
                    flat == spec_flat(cells),
                    trace_idx == traces@.len(),
                    traces@.len() >= 1,
                    traces@[0]@.len() == 0,
                    head == queue_head,
                    head >= 1,
                    head <= queue@.len(),
                    queue@.len() >= seeds_v.len(),
                    forall|m: int| 0 <= m < seeds_v.len() ==> #[trigger] queue@[m] == seeds_v[m],
                    forall|m: int| 0 <= m < queue@.len() ==> spec_in_cell(cells, #[trigger] queue@[m]),
                    forall|m: int| 0 <= m < head - 1 ==> spec_trace_of(lookup@, #[trigger] queue@[m]) is Some,
                    queue@[head - 1] == atom,
                    tq@.len() >= 1,
                    tq@[0] == atom,
                    th == 0 ==> spec_trace_of(lookup@, atom) is None && spec_unexplored(flat, lookup@) == start_unexplored,
                    th > 0 ==> spec_trace_of(lookup@, atom) is Some && spec_unexplored(flat, lookup@) < start_unexplored,
                    forall|m: int| 0 <= m < tq@.len() ==> spec_in_cell(cells, #[trigger] tq@[m]),
                    forall|m: int| th <= m < tq@.len() ==> spec_trace_of(lookup@, #[trigger] tq@[m]) is None
                        || spec_trace_of(lookup@, tq@[m]) == Some(trace_idx),
                    forall|k: int| 0 <= k < lookup@.len() ==> 1 <= (#[trigger] lookup@[k]).trace <= trace_idx,
                    forall|k: int| 0 <= k < lookup@.len() ==> spec_in_cell(cells, (#[trigger] lookup@[k]).atom),
                    forall|k: int| 0 <= k < lookup@.len() ==> spec_trace_of(lookup@, (#[trigger] lookup@[k]).atom) == Some(lookup@[k].trace),
                    forall|k: int, o: Atom| 0 <= k < lookup@.len() && #[trigger] spec_is_neighbor(cells, lookup@[k].atom, o)
                        ==> spec_trace_of(lookup@, o) == Some(lookup@[k].trace)
                            || (lookup@[k].trace == trace_idx && exists|m: int| th <= m < tq@.len() && tq@[m] == o),
                    forall|k: int, o: Atom| 0 <= k < lookup@.len() && #[trigger] spec_is_mosfet_sibling(cells, lookup@[k].atom, o)
                        ==> spec_trace_of(lookup@, o) is Some || exists|m: int| head - 1 <= m < queue@.len() && queue@[m] == o,
                    forall|t: int, m: int| 0 <= t < traces@.len() && 0 <= m < traces@[t]@.len()
                        ==> spec_trace_of(lookup@, #[trigger] traces@[t]@[m]) == Some(t as usize),
                    forall|m: int| 0 <= m < trace@.len() ==> spec_trace_of(lookup@, #[trigger] trace@[m]) == Some(trace_idx),
                    forall|m: int| 0 <= m < base_atoms@.len() ==> (#[trigger] base_atoms@[m]).mosfet_part == MosfetPart::Base
                        && spec_trace_of(lookup@, base_atoms@[m]) is Some && spec_in_cell(cells, base_atoms@[m]),
                    forall|k: int| 0 <= k < lookup@.len() && (#[trigger] lookup@[k]).atom.mosfet_part == MosfetPart::Base
                        ==> base_atoms@.contains(lookup@[k].atom),
                decreases spec_unexplored(flat, lookup@), tq@.len() - th,
            {
                let a = tq[th];
                th = th + 1;
                let ghost l0 = lookup@;
                let ghost q0 = queue@;
                let ghost tq0 = tq@;
                let ghost b0 = base_atoms@;
                let ghost tr0 = trace@;

                if lookup_trace(&lookup, &a).is_some() {
                    proof {
                        assert(spec_trace_of(lookup@, tq@[th - 1]) == Some(trace_idx));
                        assert forall|k: int, o: Atom| 0 <= k < lookup@.len() && #[trigger] spec_is_neighbor(cells, lookup@[k].atom, o)
                            implies spec_trace_of(lookup@, o) == Some(lookup@[k].trace)
                                || (lookup@[k].trace == trace_idx && exists|m: int| th <= m < tq@.len() && tq@[m] == o) by {
                            if spec_trace_of(lookup@, o) != Some(lookup@[k].trace) {
                                let m = choose|m: int| th - 1 <= m < tq@.len() && tq@[m] == o;
                                if m == th - 1 {
                                    assert(o == a);
                                }
                            }
                        }
                    }
                    continue;
                }

                let entry = AtomTrace { atom: a, trace: trace_idx };
                lookup.push(entry);
                proof {
                    assert forall|b: Atom| #[trigger] spec_trace_of(lookup@, b) == if spec_trace_of(l0, b) is Some {
                        spec_trace_of(l0, b)
                    } else if b == a {
                        Some(trace_idx)
                    } else {
                        None
                    } by {
                        lemma_trace_of_push(l0, entry, b);
                    }
                    lemma_cell_at_flat(cells, a.cell_loc, a);
                    lemma_unexplored_push(flat, l0, entry);
                }

                // Add atom neighbors of metal and si.
                self.push_neighbors(&a, &mut tq);
                trace.push(a);

                if a.mosfet_part == MosfetPart::Base {
                    base_atoms.push(a);
                }

                // If the atom is itself part of a MOSFET, then we add the other MOSFET part atoms
                // to the global edge set before continuing.
                let ghost q1 = queue@;
                if a.mosfet_part != MosfetPart::Absent {
                    self.push_mosfet_parts(&a, &mut queue);
                }

                proof {
                    assert(lookup@[l0.len() as int] == entry);
                    // Entries of the lookup: the old ones and the new one.
                    assert forall|k: int| 0 <= k < lookup@.len() implies 1 <= (#[trigger] lookup@[k]).trace <= trace_idx by {
                        if k < l0.len() {
                            assert(lookup@[k] == l0[k]);
                        }
                    }
                    assert forall|k: int| 0 <= k < lookup@.len() implies spec_in_cell(cells, (#[trigger] lookup@[k]).atom) by {
                        if k < l0.len() {
                            assert(lookup@[k] == l0[k]);
                        }
                    }
                    assert forall|k: int| 0 <= k < lookup@.len() implies spec_trace_of(lookup@, (#[trigger] lookup@[k]).atom) == Some(lookup@[k].trace) by {
                        if k < l0.len() {
                            assert(lookup@[k] == l0[k]);
                            assert(spec_trace_of(lookup@, l0[k].atom) == spec_trace_of(l0, l0[k].atom));
                        }
                    }
                    // Pending atoms are unexplored or in this trace.
                    assert forall|m: int| th <= m < tq@.len() implies spec_trace_of(lookup@, #[trigger] tq@[m]) is None
                        || spec_trace_of(lookup@, tq@[m]) == Some(trace_idx) by {
                        let o = tq@[m];
                        assert(spec_trace_of(lookup@, o) == if spec_trace_of(l0, o) is Some { spec_trace_of(l0, o) } else if o == a { Some(trace_idx) } else { None });
                        if m < tq0.len() {
                            assert(tq@[m] == tq0[m]);
                        } else {
                            assert(spec_is_neighbor(cells, a, o));
                            if let Some(t2) = spec_trace_of(l0, o) {
                                if t2 != trace_idx {
                                    lemma_trace_of_entry(l0, o);
                                    let k = choose|k: int| 0 <= k < l0.len() && (#[trigger] l0[k]).atom == o && l0[k].trace == t2;
                                    lemma_neighbor_symmetric(cells, a, o);
                                    assert(spec_is_neighbor(cells, l0[k].atom, a));
                                    assert(false);
                                }
                            }
                        }
                    }
                    assert forall|m: int| 0 <= m < tq@.len() implies spec_in_cell(cells, #[trigger] tq@[m]) by {
                        if m < tq0.len() {
                            assert(tq@[m] == tq0[m]);
                        } else {
                            assert(spec_is_neighbor(cells, a, tq@[m]));
                        }
                    }
                    assert(tq@[0] == atom);
                    // Neighbors.
                    assert forall|k: int, o: Atom| 0 <= k < lookup@.len() && #[trigger] spec_is_neighbor(cells, lookup@[k].atom, o)
                        implies spec_trace_of(lookup@, o) == Some(lookup@[k].trace)
                            || (lookup@[k].trace == trace_idx && exists|m: int| th <= m < tq@.len() && tq@[m] == o) by {
                        assert(spec_trace_of(lookup@, o) == if spec_trace_of(l0, o) is Some { spec_trace_of(l0, o) } else if o == a { Some(trace_idx) } else { None });
                        if k < l0.len() {
                            assert(lookup@[k] == l0[k]);
                            if spec_trace_of(l0, o) != Some(l0[k].trace) {
                                let m = choose|m: int| th - 1 <= m < tq0.len() && tq0[m] == o;
                                if m != th - 1 {
                                    assert(tq@[m] == tq0[m]);
                                }
                            }
                        } else {
                            assert(lookup@[k] == entry);
                            if spec_trace_of(lookup@, o) != Some(trace_idx) {
                                let m = choose|m: int| tq0.len() <= m < tq@.len() && tq@[m] == o;
                            }
                        }
                    }
                    // MOSFET siblings.
                    assert forall|k: int, o: Atom| 0 <= k < lookup@.len() && #[trigger] spec_is_mosfet_sibling(cells, lookup@[k].atom, o)
                        implies spec_trace_of(lookup@, o) is Some || exists|m: int| head - 1 <= m < queue@.len() && queue@[m] == o by {
                        assert(spec_trace_of(lookup@, o) == if spec_trace_of(l0, o) is Some { spec_trace_of(l0, o) } else if o == a { Some(trace_idx) } else { None });
                        if k < l0.len() {
                            assert(lookup@[k] == l0[k]);
                            if !(spec_trace_of(l0, o) is Some) {
                                let m = choose|m: int| head - 1 <= m < q0.len() && q0[m] == o;
                                assert(queue@[m] == q0[m]);
                            }
                        } else {
                            assert(lookup@[k] == entry);
                        }
                    }
                    assert forall|m: int| 0 <= m < queue@.len() implies spec_in_cell(cells, #[trigger] queue@[m]) by {
                        if m < q0.len() {
                            assert(queue@[m] == q0[m]);
                        }
                    }
                    assert forall|m: int| 0 <= m < head - 1 implies spec_trace_of(lookup@, #[trigger] queue@[m]) is Some by {
                        assert(queue@[m] == q0[m]);
                    }
                    assert(queue@[head - 1] == q0[head - 1]);
                    assert forall|m: int| 0 <= m < seeds_v.len() implies #[trigger] queue@[m] == seeds_v[m] by {
                        assert(queue@[m] == q0[m]);
                    }
                    // Traces.
                    assert forall|t: int, m: int| 0 <= t < traces@.len() && 0 <= m < traces@[t]@.len()
                        implies spec_trace_of(lookup@, #[trigger] traces@[t]@[m]) == Some(t as usize) by {
                        assert(spec_trace_of(l0, traces@[t]@[m]) == Some(t as usize));
                    }
                    assert forall|m: int| 0 <= m < trace@.len() implies spec_trace_of(lookup@, #[trigger] trace@[m]) == Some(trace_idx) by {
                        if m < tr0.len() {
                            assert(trace@[m] == tr0[m]);
                        }
                    }
                    // Base atoms.
                    assert forall|m: int| 0 <= m < base_atoms@.len() implies (#[trigger] base_atoms@[m]).mosfet_part == MosfetPart::Base
                        && spec_trace_of(lookup@, base_atoms@[m]) is Some && spec_in_cell(cells, base_atoms@[m]) by {
                        if m < b0.len() {
                            assert(base_atoms@[m] == b0[m]);
                        }
                    }
                    assert forall|k: int| 0 <= k < lookup@.len() && (#[trigger] lookup@[k]).atom.mosfet_part == MosfetPart::Base
                        implies base_atoms@.contains(lookup@[k].atom) by {
                        if k < l0.len() {
                            assert(lookup@[k] == l0[k]);
                            if a.mosfet_part == MosfetPart::Base {
                                lemma_contains_push(b0, a, l0[k].atom);
                            }
                        } else {
                            lemma_contains_push(b0, a, a);
                        }
                    }
                }
            }

            traces.push(trace);
            proof {
                assert forall|k: int, o: Atom| 0 <= k < lookup@.len() && #[trigger] spec_is_mosfet_sibling(cells, lookup@[k].atom, o)
                    implies spec_trace_of(lookup@, o) is Some || exists|m: int| head <= m < queue@.len() && queue@[m] == o by {
                    if !(spec_trace_of(lookup@, o) is Some) {
                        let m = choose|m: int| head - 1 <= m < queue@.len() && queue@[m] == o;
                        assert(m != head - 1);
                    }
                }
                assert forall|m: int| 0 <= m < head implies spec_trace_of(lookup@, #[trigger] queue@[m]) is Some by {
                    if m == head - 1 {
                        assert(queue@[m] == atom);
                    }
                }
                let tn = traces@.len() - 1;
                assert forall|t: int, m: int| 0 <= t < traces@.len() && 0 <= m < traces@[t]@.len()
                    implies spec_trace_of(lookup@, #[trigger] traces@[t]@[m]) == Some(t as usize) by {
                    if t < tn {
                        assert(traces@[t] == traces@.drop_last()[t]);
                    }
                }
                assert(traces@[0] == traces@.drop_last()[0]);
            }
        }
        proof {
            assert forall|k: int, o: Atom| 0 <= k < lookup@.len() && #[trigger] spec_is_mosfet_sibling(cells, lookup@[k].atom, o)
                implies spec_trace_of(lookup@, o) is Some by {}
            assert forall|m: int| 0 <= m < seeds_v.len() implies spec_trace_of(lookup@, #[trigger] seeds_v[m]) is Some by {
                assert(queue@[m] == seeds_v[m]);
            }
        }
        (traces, lookup, base_atoms)
    }

    /// Appends to `queue` every MOSFET part of the cell of `a`.
    fn push_mosfet_parts(&self, a: &Atom, queue: &mut Vec<Atom>)
        requires
            spec_cells_valid(self.cells@),
            spec_in_cell(self.cells@, *a),
        ensures
            final(queue)@.len() >= old(queue)@.len(),
            forall|m: int| 0 <= m < old(queue)@.len() ==> #[trigger] final(queue)@[m] == old(queue)@[m],
            forall|m: int| old(queue)@.len() <= m < final(queue)@.len() ==> spec_in_cell(self.cells@, #[trigger] final(queue)@[m]),
            forall|o: Atom| #[trigger] spec_is_mosfet_sibling(self.cells@, *a, o)
                ==> exists|m: int| old(queue)@.len() <= m < final(queue)@.len() && final(queue)@[m] == o,
    {
        let ghost start = queue@.len();
        let ghost q0 = queue@;
        proof {
            lemma_cell_atoms_valid(self.cells@, a.cell_loc);
        }
        match self.get_cell_by_location(&a.cell_loc) {
            Some(cell) => {
                let ghost atoms = cell_atoms(*cell);
                let len = cell_len(cell);
                let mut k: usize = 0;
                while k < len
                    invariant
                        atoms == cell_atoms(*cell),
                        spec_cell_at(self.cells@, a.cell_loc) == Some(atoms),
                        forall|kk: int| 0 <= kk < atoms.len() ==> (#[trigger] atoms[kk]).cell_loc == a.cell_loc,
                        len == atoms.len(),
                        k <= len,
                        queue@.len() >= start,
                        forall|m: int| 0 <= m < start ==> #[trigger] queue@[m] == q0[m],
                        forall|m: int| start <= m < queue@.len() ==> spec_in_cell(self.cells@, #[trigger] queue@[m]),
                        forall|kk: int| 0 <= kk < k && (#[trigger] atoms[kk]).mosfet_part != MosfetPart::Absent
                            ==> exists|m: int| start <= m < queue@.len() && queue@[m] == atoms[kk],
                    decreases len - k,
                {
                    let o = cell_get(cell, k);
                    if o.mosfet_part != MosfetPart::Absent {
                        let ghost b = queue@;
                        queue.push(o);
                        proof {
                            assert(atoms[k as int] == o);
                            assert(atoms.contains(o));
                            assert(queue@[b.len() as int] == o);
                            assert forall|kk: int| 0 <= kk < k + 1 && (#[trigger] atoms[kk]).mosfet_part != MosfetPart::Absent
                                implies exists|m: int| start <= m < queue@.len() && queue@[m] == atoms[kk] by {
                                if kk < k {
                                    let m = choose|m: int| start <= m < b.len() && b[m] == atoms[kk];
                                    assert(queue@[m] == b[m]);
                                }
                            }
                        }
                    }
                    k = k + 1;
                }
                proof {
                    assert forall|o: Atom| #[trigger] spec_is_mosfet_sibling(self.cells@, *a, o)
                        implies exists|m: int| start <= m < queue@.len() && queue@[m] == o by {
                        let kk = choose|kk: int| 0 <= kk < atoms.len() && atoms[kk] == o;
                        assert(atoms[kk].mosfet_part != MosfetPart::Absent);
                    }
                }
            },
            None => {},
        }
    }
}


/// `g` belongs to the MOSFET whose base atom is `b`: NPN when the base is P-type, with the traces of
/// the base and of the MOSFET's left and right emitter/collector atoms.
pub open spec fn spec_gate_of(cells: Seq<CellEntry>, lookup: Seq<AtomTrace>, b: Atom, g: Gate) -> bool {
    &&& b.mosfet_part == MosfetPart::Base
    &&& spec_in_cell(cells, b)
    &&& g.is_npn == !b.is_si_n
    &&& spec_trace_of(lookup, b) == Some(g.base_trace)
    &&& exists|o: Atom| #[trigger] spec_is_mosfet_sibling(cells, b, o) && o.mosfet_part == MosfetPart::LeftEC
        && spec_trace_of(lookup, o) == Some(g.left_ec_trace)
    &&& exists|o: Atom| #[trigger] spec_is_mosfet_sibling(cells, b, o) && o.mosfet_part == MosfetPart::RightEC
        && spec_trace_of(lookup, o) == Some(g.right_ec_trace)
}

impl IntegratedCircuit {
    /// The gates of the MOSFETs with base atoms `base_atoms`, in that order.
    fn build_gates(&self, lookup: &Vec<AtomTrace>, base_atoms: &Vec<Atom>, n_traces: usize) -> (r: Vec<Gate>)
        requires
            spec_cells_valid(self.cells@),
            forall|k: int| 0 <= k < lookup@.len() ==> (#[trigger] lookup@[k]).trace < n_traces,
            forall|k: int, o: Atom| 0 <= k < lookup@.len() && #[trigger] spec_is_mosfet_sibling(self.cells@, lookup@[k].atom, o)
                ==> spec_trace_of(lookup@, o) is Some,
            forall|m: int| 0 <= m < base_atoms@.len() ==> (#[trigger] base_atoms@[m]).mosfet_part == MosfetPart::Base
                && spec_trace_of(lookup@, base_atoms@[m]) is Some && spec_in_cell(self.cells@, base_atoms@[m]),
        ensures
            r@.len() == base_atoms@.len(),
            spec_gates_in_range(r@, n_traces as int),
            forall|g: int| 0 <= g < r@.len() ==> spec_gate_of(self.cells@, lookup@, base_atoms@[g], #[trigger] r@[g]),
    {
        let ghost cells = self.cells@;
        let mut gates: Vec<Gate> = Vec::new();
        let mut i: usize = 0;
        while i < base_atoms.len()
            invariant
                cells == self.cells@,
                spec_cells_valid(cells),
                forall|k: int| 0 <= k < lookup@.len() ==> (#[trigger] lookup@[k]).trace < n_traces,
                forall|k: int, o: Atom| 0 <= k < lookup@.len() && #[trigger] spec_is_mosfet_sibling(cells, lookup@[k].atom, o)
                    ==> spec_trace_of(lookup@, o) is Some,
                forall|m: int| 0 <= m < base_atoms@.len() ==> (#[trigger] base_atoms@[m]).mosfet_part == MosfetPart::Base
                    && spec_trace_of(lookup@, base_atoms@[m]) is Some && spec_in_cell(cells, base_atoms@[m]),
                i <= base_atoms@.len(),
                gates@.len() == i,
                spec_gates_in_range(gates@, n_traces as int),
                forall|g: int| 0 <= g < i ==> spec_gate_of(cells, lookup@, base_atoms@[g], #[trigger] gates@[g]),
            decreases base_atoms@.len() - i,
        {
            let base_atom = base_atoms[i];
            let base_trace = lookup_trace(lookup, &base_atom).unwrap();
            proof {
                lemma_trace_of_in(lookup@, base_atom);
                lemma_trace_of_entry(lookup@, base_atom);
                lemma_in_cell_valid(cells, base_atom);
                lemma_cell_atoms_valid(cells, base_atom.cell_loc);
            }
            let ghost kb = choose|k: int| 0 <= k < lookup@.len() && (#[trigger] lookup@[k]).atom == base_atom && lookup@[k].trace == base_trace;
            let cell = self.get_cell_by_location(&base_atom.cell_loc).unwrap();
            let ghost atoms = cell_atoms(*cell);
            let len = cell_len(cell);
            let mut left: usize = usize::MAX;
            let mut right: usize = usize::MAX;
            let mut found_left = false;
            let mut found_right = false;
            let mut k: usize = 0;
            // Find the EC atoms
            while k < len
                invariant
                    cells == self.cells@,
                    atoms == cell_atoms(*cell),
                    spec_cell_at(cells, base_atom.cell_loc) == Some(atoms),
                    forall|kk: int| 0 <= kk < atoms.len() ==> (#[trigger] atoms[kk]).cell_loc == base_atom.cell_loc,
                    base_atom.mosfet_part == MosfetPart::Base,
                    0 <= kb < lookup@.len(),
                    lookup@[kb].atom == base_atom,
                    forall|k: int| 0 <= k < lookup@.len() ==> (#[trigger] lookup@[k]).trace < n_traces,
                    forall|k: int, o: Atom| 0 <= k < lookup@.len() && #[trigger] spec_is_mosfet_sibling(cells, lookup@[k].atom, o)
                        ==> spec_trace_of(lookup@, o) is Some,
                    len == atoms.len(),
                    k <= len,
                    (exists|kk: int| 0 <= kk < k && #[trigger] atoms[kk].mosfet_part == MosfetPart::LeftEC) ==> found_left,
                    (exists|kk: int| 0 <= kk < k && #[trigger] atoms[kk].mosfet_part == MosfetPart::RightEC) ==> found_right,
                    found_left ==> left < n_traces && exists|o: Atom| #[trigger] spec_is_mosfet_sibling(cells, base_atom, o)
                        && o.mosfet_part == MosfetPart::LeftEC && spec_trace_of(lookup@, o) == Some(left),
                    found_right ==> right < n_traces && exists|o: Atom| #[trigger] spec_is_mosfet_sibling(cells, base_atom, o)
                        && o.mosfet_part == MosfetPart::RightEC && spec_trace_of(lookup@, o) == Some(right),
                decreases len - k,
            {
                let atom = cell_get(cell, k);
                proof {
                    assert(atoms[k as int] == atom);
                    assert(atoms.contains(atom));
                }
                match atom.mosfet_part {
                    MosfetPart::LeftEC => {
                        proof {
                            assert(spec_is_mosfet_sibling(cells, lookup@[kb].atom, atom));
                            lemma_trace_of_in(lookup@, atom);
                        }
                        left = lookup_trace(lookup, &atom).unwrap();
                        found_left = true;
                        proof {
                            assert(spec_is_mosfet_sibling(cells, base_atom, atom));
                        }
                    },
                    MosfetPart::RightEC => {
                        proof {
                            assert(spec_is_mosfet_sibling(cells, lookup@[kb].atom, atom));
                            lemma_trace_of_in(lookup@, atom);
                        }
                        right = lookup_trace(lookup, &atom).unwrap();
                        found_right = true;
                        proof {
                            assert(spec_is_mosfet_sibling(cells, base_atom, atom));
                        }
                    },
                    _ => {},
                }
                proof {
                    if exists|kk: int| 0 <= kk < k + 1 && #[trigger] atoms[kk].mosfet_part == MosfetPart::LeftEC {
                        let kk = choose|kk: int| 0 <= kk < k + 1 && #[trigger] atoms[kk].mosfet_part == MosfetPart::LeftEC;
                        if kk < k {
                            assert(exists|kk2: int| 0 <= kk2 < k && #[trigger] atoms[kk2].mosfet_part == MosfetPart::LeftEC);
                        }
                    }
                    if exists|kk: int| 0 <= kk < k + 1 && #[trigger] atoms[kk].mosfet_part == MosfetPart::RightEC {
                        let kk = choose|kk: int| 0 <= kk < k + 1 && #[trigger] atoms[kk].mosfet_part == MosfetPart::RightEC;
                        if kk < k {
                            assert(exists|kk2: int| 0 <= kk2 < k && #[trigger] atoms[kk2].mosfet_part == MosfetPart::RightEC);
                        }
                    }
                }
                k = k + 1;
            }
            proof {
                assert(spec_atom_valid(cells, base_atom.cell_loc, base_atom, atoms));
                let ml = choose|m: int| 0 <= m < atoms.len() && #[trigger] atoms[m].mosfet_part == MosfetPart::LeftEC;
                let mr = choose|m: int| 0 <= m < atoms.len() && #[trigger] atoms[m].mosfet_part == MosfetPart::RightEC;
                assert(found_left);
                assert(found_right);
                lemma_trace_of_in(lookup@, base_atom);
            }
            let gate = Gate { is_npn: !base_atom.is_si_n, base_trace, left_ec_trace: left, right_ec_trace: right };
            let ghost g0 = gates@;
            gates.push(gate);
            proof {
                assert forall|g: int| 0 <= g < i + 1 implies spec_gate_of(cells, lookup@, base_atoms@[g], #[trigger] gates@[g]) by {
                    if g < i {
                        assert(gates@[g] == g0[g]);
                    }
                }
                assert forall|g: int| 0 <= g < gates@.len() implies {
                    &&& (#[trigger] gates@[g]).base_trace < n_traces
                    &&& gates@[g].left_ec_trace < n_traces
                    &&& gates@[g].right_ec_trace < n_traces
                } by {
                    if g < i {
                        assert(gates@[g] == g0[g]);
                    }
                }
            }
            i = i + 1;
        }
        gates
    }
}


/// No two cells share a location.
pub open spec fn spec_locs_distinct(cells: Seq<CellEntry>) -> bool {
    forall|i: int, j: int| 0 <= i < cells.len() && 0 <= j < cells.len() && i != j ==> #[trigger] cells[i].loc != #[trigger] cells[j].loc
}

/// The cells with `e` put at its location, in place of the cell there if there is one.
pub open spec fn spec_set_cell(cells: Seq<CellEntry>, e: CellEntry) -> Seq<CellEntry> {
    if exists|i: int| 0 <= i < cells.len() && #[trigger] cells[i].loc == e.loc {
        cells.update(choose|i: int| 0 <= i < cells.len() && #[trigger] cells[i].loc == e.loc, e)
    } else {
        cells.push(e)
    }
}

/// The cells after each change, in order, puts its cell at its location.
pub open spec fn spec_apply_changes(cells: Seq<CellEntry>, changes: Seq<(IVec2, Cell)>) -> Seq<CellEntry>
    decreases changes.len(),
{
    if changes.len() == 0 {
        cells
    } else {
        spec_set_cell(spec_apply_changes(cells, changes.drop_last()), CellEntry { loc: changes.last().0, cell: changes.last().1 })
    }
}

/// `g` belongs to some MOSFET base.
pub open spec fn spec_is_some_gate(cells: Seq<CellEntry>, lookup: Seq<AtomTrace>, g: Gate) -> bool {
    exists|b: Atom| #[trigger] spec_gate_of(cells, lookup, b, g)
}

/// The traces, the trace of each atom and the gates are those that compiling the cells from the
/// pins gives: every explored atom lies in its trace together with all its conductive neighbors,
/// the other parts of an explored MOSFET are explored, every gate belongs to an explored
/// MOSFET base, and every explored MOSFET base has a gate.
pub open spec fn spec_compiled(ic: IntegratedCircuit) -> bool {
    let cells = ic.cells@;
    let lookup = ic.trace_lookup_by_atom@;
    &&& ic.traces@.len() >= 1
    &&& ic.traces@[0]@.len() == 0
    &&& forall|k: int| 0 <= k < lookup.len() ==> 1 <= (#[trigger] lookup[k]).trace < ic.traces@.len()
    &&& forall|k: int| 0 <= k < lookup.len() ==> spec_in_cell(cells, (#[trigger] lookup[k]).atom)
    &&& forall|k: int| 0 <= k < lookup.len() ==> spec_trace_of(lookup, (#[trigger] lookup[k]).atom) == Some(lookup[k].trace)
    &&& forall|k: int, o: Atom| 0 <= k < lookup.len() && #[trigger] spec_is_neighbor(cells, lookup[k].atom, o)
        ==> spec_trace_of(lookup, o) == Some(lookup[k].trace)
    &&& forall|k: int, o: Atom| 0 <= k < lookup.len() && #[trigger] spec_is_mosfet_sibling(cells, lookup[k].atom, o)
        ==> spec_trace_of(lookup, o) is Some
    &&& forall|t: int, m: int| 0 <= t < ic.traces@.len() && 0 <= m < ic.traces@[t]@.len()
        ==> spec_trace_of(lookup, #[trigger] ic.traces@[t]@[m]) == Some(t as usize)
    &&& forall|g: int| 0 <= g < ic.gates@.len() ==> spec_is_some_gate(cells, lookup, #[trigger] ic.gates@[g])
    &&& forall|k: int| 0 <= k < lookup.len() && (#[trigger] lookup[k]).atom.mosfet_part == MosfetPart::Base
        ==> exists|g: int| 0 <= g < ic.gates@.len() && #[trigger] spec_gate_of(cells, lookup, lookup[k].atom, ic.gates@[g])
}

impl IntegratedCircuit {
    /// Recompiles the traces and gates from the cells, exploring breadth-first from the atoms
    /// under the pins (see `spec_compiled`).
    pub(crate) fn rebuild_traces_and_gates(&mut self)
        requires
            spec_cells_valid(old(self).cells@),
        ensures
            final(self).cells@ == old(self).cells@,
            final(self).pin_modules@ == old(self).pin_modules@,
            final(self).wf(),
            spec_compiled(*final(self)),
    {
        // Seed the edge-set with all atoms attached to I/O pins.
        let seeds = self.pin_seed_atoms();
        let ghost seeds_v = seeds@;
        let (traces, lookup, base_atoms) = self.explore_traces(seeds);
        // Now we can build up gates as all traces have already been created. The `base_atoms` vec
        // is already in breadth-first other.
        let gates = self.build_gates(&lookup, &base_atoms, traces.len());
        let ghost cells = self.cells@;
        let ghost base_v = base_atoms@;
        let ghost before = *self;
        let ghost traces_v = traces@;
        let ghost lookup_v = lookup@;
        self.traces = traces;
        self.trace_lookup_by_atom = lookup;
        self.gates = gates;
        proof {
            let lk = self.trace_lookup_by_atom@;
            assert forall|i: int, j: int, k: int|
                0 <= i < self.pin_modules@.len() && 0 <= j < self.pin_modules@[i].spec_pins().len() && 0 <= k < spec_pin_atoms(*self, i, j).len()
                    && #[trigger] spec_pin_atoms(*self, i, j)[k].metal != Placement::spec_none()
                    implies spec_trace_of(lk, spec_pin_atoms(*self, i, j)[k]) is Some by {
                assert(spec_pin_atoms(before, i, j) == spec_pin_atoms(*self, i, j));
                assert(seeds_v.contains(spec_pin_atoms(*self, i, j)[k]));
                let m = choose|m: int| 0 <= m < seeds_v.len() && seeds_v[m] == spec_pin_atoms(*self, i, j)[k];
                assert(spec_trace_of(lk, seeds_v[m]) is Some);
            }
            assert forall|g: int| 0 <= g < self.gates@.len() implies spec_is_some_gate(cells, lk, #[trigger] self.gates@[g]) by {
                assert(spec_gate_of(cells, lk, base_v[g], self.gates@[g]));
            }
            assert forall|k: int| 0 <= k < lk.len() && (#[trigger] lk[k]).atom.mosfet_part == MosfetPart::Base
                implies exists|g: int| 0 <= g < self.gates@.len() && #[trigger] spec_gate_of(cells, lk, lk[k].atom, self.gates@[g]) by {
                assert(base_v.contains(lk[k].atom));
                let g = choose|g: int| 0 <= g < base_v.len() && base_v[g] == lk[k].atom;
                assert(spec_gate_of(cells, lk, base_v[g], self.gates@[g]));
            }
            assert(lk == lookup_v);
            assert(self.traces@ == traces_v);
            assert(spec_exploration(cells, seeds_v, traces_v, lookup_v, base_v));
        }
    }

    /// Puts `cell` at `loc`, in place of the cell there if there is one.
    pub(crate) fn set_cell(&mut self, loc: IVec2, cell: Cell)
        requires
            spec_locs_distinct(old(self).cells@),
        ensures
            final(self).cells@ == spec_set_cell(old(self).cells@, CellEntry { loc, cell }),
            spec_locs_distinct(final(self).cells@),
            final(self).pin_modules@ == old(self).pin_modules@,
    {
        let ghost e = CellEntry { loc, cell };
        let ghost c0 = self.cells@;
        match self.find_cell(&loc) {
            Some(i) => {
                proof {
                    assert(exists|j: int| 0 <= j < c0.len() && #[trigger] c0[j].loc == loc) by {
                        assert(c0[i as int].loc == loc);
                    }
                    let j = choose|j: int| 0 <= j < c0.len() && #[trigger] c0[j].loc == loc;
                    assert(j == i);
                }
                self.cells.set(i, CellEntry { loc, cell });
                proof {
                    assert forall|a: int, b: int| 0 <= a < self.cells@.len() && 0 <= b < self.cells@.len() && a != b
                        implies #[trigger] self.cells@[a].loc != #[trigger] self.cells@[b].loc by {
                        assert(self.cells@[a].loc == c0[a].loc);
                        assert(self.cells@[b].loc == c0[b].loc);
                    }
                }
            },
            None => {
                proof {
                    lemma_cell_at_entry(c0, loc);
                }
                self.cells.push(CellEntry { loc, cell });
                proof {
                    assert forall|a: int, b: int| 0 <= a < self.cells@.len() && 0 <= b < self.cells@.len() && a != b
                        implies #[trigger] self.cells@[a].loc != #[trigger] self.cells@[b].loc by {
                        if a < c0.len() {
                            assert(self.cells@[a] == c0[a]);
                        }
                        if b < c0.len() {
                            assert(self.cells@[b] == c0[b]);
                        }
                    }
                }
            },
        }
    }

    /// Puts each changed cell at its location, in order, then recompiles the traces and gates.
    /// The cells must form a valid circuit afterwards.
    pub fn commit_cell_changes(&mut self, changes: Vec<(IVec2, Cell)>)
        requires
            spec_locs_distinct(old(self).cells@),
            spec_cells_valid(spec_apply_changes(old(self).cells@, changes@)),
        ensures
            final(self).cells@ == spec_apply_changes(old(self).cells@, changes@),
            final(self).pin_modules@ == old(self).pin_modules@,
            final(self).wf(),
            spec_compiled(*final(self)),
    {
        let ghost c0 = self.cells@;
        let ghost all = changes@;
        let mut changes = changes;
        let mut i: usize = 0;
        let n = changes.len();
        while changes.len() > 0
            invariant
                spec_locs_distinct(self.cells@),
                n == all.len(),
                i + changes@.len() == n,
                changes@ == all.subrange(i as int, n as int),
                self.cells@ == spec_apply_changes(c0, all.take(i as int)),
                self.pin_modules@ == old(self).pin_modules@,
            decreases changes@.len(),
        {
            let (loc, change) = changes.remove(0);
            self.set_cell(loc, change);
            proof {
                let t = all.take(i + 1);
                assert(t.drop_last() =~= all.take(i as int));
                assert(t.last() == all[i as int]);
                assert(all[i as int] == (loc, change));
                assert(changes@ =~= all.subrange(i + 1, n as int));
            }
            i = i + 1;
        }
        proof {
            assert(all.take(n as int) =~= all);
        }
        self.rebuild_traces_and_gates();
    }

    /// Adds a pin module, then recompiles the traces and gates.
    pub fn add_pin_module(&mut self, pin_module: PinModule)
        requires
            spec_cells_valid(old(self).cells@),
        ensures
            final(self).cells@ == old(self).cells@,
            final(self).pin_modules@ == old(self).pin_modules@.push(pin_module),
            final(self).wf(),
            spec_compiled(*final(self)),
    {
        self.pin_modules.push(pin_module);
        self.rebuild_traces_and_gates();
    }

    /// A circuit of the given cells and pin modules, with its traces and gates compiled. The
    /// cells must form a valid circuit.
    pub fn new(cells: Vec<(IVec2, Cell)>, pin_modules: Vec<PinModule>) -> (r: IntegratedCircuit)
        requires
            spec_cells_valid(spec_apply_changes(Seq::empty(), cells@)),
        ensures
            r.cells@ == spec_apply_changes(Seq::empty(), cells@),
            r.pin_modules@ == pin_modules@,
            r.wf(),
            spec_compiled(r),
    {
        let mut ic = IntegratedCircuit {
            cells: Vec::new(),
            traces: Vec::new(),
            trace_lookup_by_atom: Vec::new(),
            gates: Vec::new(),
            pin_modules,
        };
        ic.commit_cell_changes(cells);
        ic
    }
}

impl Default for IntegratedCircuit {
    /// A circuit without cells or pin modules (and so without traces or gates).
    fn default() -> (r: IntegratedCircuit)
        ensures
            r.cells@.len() == 0,
            r.traces@.len() == 0,
            r.trace_lookup_by_atom@.len() == 0,
            r.gates@.len() == 0,
            r.pin_modules@.len() == 0,
            r.wf(),
    {
        IntegratedCircuit {
            cells: Vec::new(),
            traces: Vec::new(),
            trace_lookup_by_atom: Vec::new(),
            gates: Vec::new(),
            pin_modules: Vec::new(),
        }
    }
}


/// The index of the first cell of `cells` at `loc`, if there is one.
fn find_cell_in(cells: &Vec<CellEntry>, loc: &IVec2) -> (r: Option<usize>)
    ensures
        r is None <==> spec_cell_at(cells@, *loc) is None,
        r matches Some(i) ==> i < cells@.len() && cells@[i as int].loc == *loc
            && spec_cell_at(cells@, *loc) == Some(cell_atoms(cells@[i as int].cell)),
{
    let mut i: usize = 0;
    assert(cells@.skip(0) =~= cells@);
    while i < cells.len()
        invariant
            i <= cells@.len(),
            spec_cell_at(cells@, *loc) == spec_cell_at(cells@.skip(i as int), *loc),
        decreases cells@.len() - i,
    {
        assert(cells@.skip(i as int)[0] == cells@[i as int]);
        if cells[i].loc == *loc {
            return Some(i);
        }
        assert(cells@.skip(i as int).drop_first() =~= cells@.skip(i + 1));
        i = i + 1;
    }
    None
}

/// The chunk (of `CHUNK_SIZE` by `CHUNK_SIZE` cells) holding the location `loc`.
pub open spec fn spec_chunk_of(loc: IVec2) -> IVec2 {
    IVec2 { x: (loc.x / 128) as i32, y: (loc.y / 128) as i32 }
}

/// The chunk holding `loc`: each coordinate shifted right by `LOG_CHUNK_SIZE`.
pub(crate) fn chunk_of_loc(loc: IVec2) -> (r: IVec2)
    ensures
        r == spec_chunk_of(loc),
{
    let c = crate::coords::ChunkCoord::from(crate::coords::CellCoord(loc));
    c.0
}

impl IntegratedCircuit {
    /// The chunks that hold a cell, each once, in the order of their first cell.
    pub fn chunk_locs(&self) -> (r: Vec<IVec2>)
        ensures
            r@.no_duplicates(),
            forall|c: IVec2| #[trigger] r@.contains(c) <==> exists|i: int| 0 <= i < self.cells@.len() && spec_chunk_of(#[trigger] self.cells@[i].loc) == c,
    {
        let mut r: Vec<IVec2> = Vec::new();
        let mut i: usize = 0;
        while i < self.cells.len()
            invariant
                i <= self.cells@.len(),
                r@.no_duplicates(),
                forall|c: IVec2| #[trigger] r@.contains(c) <==> exists|j: int| 0 <= j < i && spec_chunk_of(#[trigger] self.cells@[j].loc) == c,
            decreases self.cells@.len() - i,
        {
            let c = chunk_of_loc(self.cells[i].loc);
            let mut found = false;
            let mut k: usize = 0;
            while k < r.len()
                invariant
                    k <= r@.len(),
                    found <==> exists|m: int| 0 <= m < k && r@[m] == c,
                decreases r@.len() - k,
            {
                if r[k] == c {
                    found = true;
                }
                k = k + 1;
            }
            let ghost r0 = r@;
            if !found {
                r.push(c);
                proof {
                    assert forall|a: int, b: int| 0 <= a < r@.len() && 0 <= b < r@.len() && a != b implies r@[a] != r@[b] by {
                        if a < r0.len() && b < r0.len() {
                            assert(r@[a] == r0[a] && r@[b] == r0[b]);
                        }
                    }
                }
            }
            proof {
                assert forall|c2: IVec2| #[trigger] r@.contains(c2) <==> exists|j: int| 0 <= j < i + 1 && spec_chunk_of(#[trigger] self.cells@[j].loc) == c2 by {
                    if r@.contains(c2) {
                        let m = choose|m: int| 0 <= m < r@.len() && r@[m] == c2;
                        if m < r0.len() {
                            assert(r0.contains(c2));
                            let j = choose|j: int| 0 <= j < i && spec_chunk_of(#[trigger] self.cells@[j].loc) == c2;
                            assert(0 <= j < i + 1 && spec_chunk_of(self.cells@[j].loc) == c2);
                        } else {
                            assert(spec_chunk_of(self.cells@[i as int].loc) == c2);
                        }
                    }
                    if exists|j: int| 0 <= j < i + 1 && spec_chunk_of(#[trigger] self.cells@[j].loc) == c2 {
                        let j = choose|j: int| 0 <= j < i + 1 && spec_chunk_of(#[trigger] self.cells@[j].loc) == c2;
                        if j < i {
                            assert(r0.contains(c2));
                            let m = choose|m: int| 0 <= m < r0.len() && r0[m] == c2;
                            assert(r@[m] == c2);
                        } else if found {
                            let m = choose|m: int| 0 <= m < r0.len() && r0[m] == c;
                            assert(r@[m] == c2);
                        } else {
                            assert(r@[r0.len() as int] == c2);
                        }
                    }
                }
            }
            i = i + 1;
        }
        r
    }
}


/// The atom `a` of the cell `atoms` at `loc` is placed consistently, where `m` gives the atoms of
/// the cell at each location (see `spec_atom_valid`).
pub open spec fn spec_atom_valid_in(m: spec_fn(IVec2) -> Option<Seq<Atom>>, loc: IVec2, a: Atom, atoms: Seq<Atom>) -> bool {
    &&& a.cell_loc == loc
    &&& forall|d: IVec2| #[trigger] spec_atom_dirs(a).contains(d) ==> spec_step_in_range(loc, d) && m(spec_step(loc, d)) is Some
    &&& a.mosfet_part == MosfetPart::Base ==> (exists|j: int| 0 <= j < atoms.len() && #[trigger] atoms[j].mosfet_part == MosfetPart::LeftEC)
        && (exists|j: int| 0 <= j < atoms.len() && #[trigger] atoms[j].mosfet_part == MosfetPart::RightEC)
    &&& a.metal != Placement::spec_none() ==> forall|j: int| 0 <= j < atoms.len() && #[trigger] atoms[j].metal != Placement::spec_none() ==> atoms[j] == a
}

/// The cells that `m` places at each location form a circuit that can be compiled (see
/// `spec_cells_valid`).
pub open spec fn spec_map_valid(m: spec_fn(IVec2) -> Option<Seq<Atom>>) -> bool {
    forall|loc: IVec2, k: int| #![trigger m(loc), m(loc)->0[k]]
        m(loc) is Some && 0 <= k < m(loc)->0.len() ==> spec_atom_valid_in(m, loc, m(loc)->0[k], m(loc)->0)
}

/// In cells with distinct locations, the cell found at an entry's location is that entry's.
pub(crate) proof fn lemma_cell_at_distinct(cells: Seq<CellEntry>, i: int)
    requires
        spec_locs_distinct(cells),
        0 <= i < cells.len(),
    ensures
        spec_cell_at(cells, cells[i].loc) == Some(cell_atoms(cells[i].cell)),
{
    lemma_cell_at_entry(cells, cells[i].loc);
    let j = choose|j: int| 0 <= j < cells.len() && (#[trigger] cells[j]).loc == cells[i].loc
        && cell_atoms(cells[j].cell) == spec_cell_at(cells, cells[i].loc)->0;
}

/// Cells with distinct locations are valid exactly when the cells they place at each location
/// are.
pub proof fn lemma_cells_valid_map(cells: Seq<CellEntry>)
    requires
        spec_locs_distinct(cells),
    ensures
        spec_cells_valid(cells) == spec_map_valid(|l: IVec2| spec_cell_at(cells, l)),
{
    let m = |l: IVec2| spec_cell_at(cells, l);
    if spec_cells_valid(cells) {
        assert forall|loc: IVec2, k: int| #![trigger m(loc), m(loc)->0[k]]
            m(loc) is Some && 0 <= k < m(loc)->0.len() implies spec_atom_valid_in(m, loc, m(loc)->0[k], m(loc)->0) by {
            lemma_cell_atoms_valid(cells, loc);
            let atoms = m(loc)->0;
            assert(spec_atom_valid(cells, loc, atoms[k], atoms));
        }
    }
    if spec_map_valid(m) {
        assert forall|i: int, k: int| 0 <= i < cells.len() && 0 <= k < cell_atoms(cells[i].cell).len()
            implies spec_atom_valid(cells, cells[i].loc, #[trigger] cell_atoms(cells[i].cell)[k], cell_atoms(cells[i].cell)) by {
            lemma_cell_at_distinct(cells, i);
            let loc = cells[i].loc;
            assert(m(loc) == Some(cell_atoms(cells[i].cell)));
            assert(spec_atom_valid_in(m, loc, m(loc)->0[k], m(loc)->0));
        }
    }
}


/// Whether no two cells share a location.
fn locs_distinct(cells: &Vec<CellEntry>) -> (r: bool)
    ensures
        r == spec_locs_distinct(cells@),
{
    let mut i: usize = 0;
    while i < cells.len()
        invariant
            i <= cells@.len(),
            forall|a: int, b: int| 0 <= a < i && 0 <= b < cells@.len() && a != b ==> #[trigger] cells@[a].loc != #[trigger] cells@[b].loc,
        decreases cells@.len() - i,
    {
        let mut j: usize = 0;
        while j < cells.len()
            invariant
                i < cells@.len(),
                j <= cells@.len(),
                forall|a: int, b: int| 0 <= a < i && 0 <= b < cells@.len() && a != b ==> #[trigger] cells@[a].loc != #[trigger] cells@[b].loc,
                forall|b: int| 0 <= b < j && b != i ==> cells@[i as int].loc != #[trigger] cells@[b].loc,
            decreases cells@.len() - j,
        {
            if j != i && cells[i].loc == cells[j].loc {
                return false;
            }
            j = j + 1;
        }
        i = i + 1;
    }
    true
}

/// Whether the atom `a` of `cell` at `loc` is valid (see `spec_atom_valid`).
fn atom_valid(cells: &Vec<CellEntry>, loc: IVec2, a: &Atom, cell: &Cell) -> (r: bool)
    ensures
        r == spec_atom_valid(cells@, loc, *a, cell_atoms(*cell)),
{
    let ghost atoms = cell_atoms(*cell);
    if a.cell_loc != loc {
        return false;
    }
    let p = a.metal.bitor(a.si);
    let dirs = p.cardinal_vectors();
    let ghost dv = crate::substrate::small_vec::dir_vec_items(dirs);
    let n = crate::substrate::small_vec::dir_vec_len(&dirs);
    let mut di: usize = 0;
    while di < n
        invariant
            dv == crate::substrate::small_vec::dir_vec_items(dirs),
            dv == spec_atom_dirs(*a),
            n == dv.len(),
            di <= n,
            forall|m: int| 0 <= m < di ==> spec_step_in_range(loc, #[trigger] dv[m]) && spec_cell_at(cells@, spec_step(loc, dv[m])) is Some,
        decreases n - di,
    {
        let d = crate::substrate::small_vec::dir_vec_get(&dirs, di);
        let x: i64 = loc.x as i64 + d.x as i64;
        let y: i64 = loc.y as i64 + d.y as i64;
        if x < i32::MIN as i64 || x > i32::MAX as i64 || y < i32::MIN as i64 || y > i32::MAX as i64 {
            proof {
                assert(dv.contains(d)) by {
                    assert(dv[di as int] == d);
                }
            }
            return false;
        }
        let l2 = loc.add(d);
        if find_cell_in(cells, &l2).is_none() {
            proof {
                assert(dv.contains(d)) by {
                    assert(dv[di as int] == d);
                }
            }
            return false;
        }
        di = di + 1;
    }
    proof {
        assert forall|d: IVec2| #[trigger] spec_atom_dirs(*a).contains(d) implies spec_step_in_range(loc, d) && spec_cell_at(cells@, spec_step(loc, d)) is Some by {
            let m = choose|m: int| 0 <= m < dv.len() && dv[m] == d;
        }
    }

    let len = cell_len(cell);
    if a.mosfet_part == MosfetPart::Base {
        let mut left = false;
        let mut right = false;
        let mut j: usize = 0;
        while j < len
            invariant
                atoms == cell_atoms(*cell),
                len == atoms.len(),
                j <= len,
                left <==> exists|m: int| 0 <= m < j && #[trigger] atoms[m].mosfet_part == MosfetPart::LeftEC,
                right <==> exists|m: int| 0 <= m < j && #[trigger] atoms[m].mosfet_part == MosfetPart::RightEC,
            decreases len - j,
        {
            let o = cell_get(cell, j);
            proof {
                assert(atoms[j as int] == o);
            }
            if o.mosfet_part == MosfetPart::LeftEC {
                left = true;
            }
            if o.mosfet_part == MosfetPart::RightEC {
                right = true;
            }
            proof {
                if exists|m: int| 0 <= m < j + 1 && #[trigger] atoms[m].mosfet_part == MosfetPart::LeftEC {
                    let m = choose|m: int| 0 <= m < j + 1 && #[trigger] atoms[m].mosfet_part == MosfetPart::LeftEC;
                    if m < j {
                        assert(exists|m2: int| 0 <= m2 < j && #[trigger] atoms[m2].mosfet_part == MosfetPart::LeftEC);
                    }
                }
                if exists|m: int| 0 <= m < j + 1 && #[trigger] atoms[m].mosfet_part == MosfetPart::RightEC {
                    let m = choose|m: int| 0 <= m < j + 1 && #[trigger] atoms[m].mosfet_part == MosfetPart::RightEC;
                    if m < j {
                        assert(exists|m2: int| 0 <= m2 < j && #[trigger] atoms[m2].mosfet_part == MosfetPart::RightEC);
                    }
                }
            }
            j = j + 1;
        }
        if !(left && right) {
            return false;
        }
    }
    if a.metal != Placement::none() {
        let mut j: usize = 0;
        while j < len
            invariant
                atoms == cell_atoms(*cell),
                len == atoms.len(),
                j <= len,
                a.metal != Placement::spec_none(),
                forall|m: int| 0 <= m < j && #[trigger] atoms[m].metal != Placement::spec_none() ==> atoms[m] == *a,
            decreases len - j,
        {
            let o = cell_get(cell, j);
            proof {
                assert(atoms[j as int] == o);
            }
            if o.metal != Placement::none() && o != *a {
                proof {
                    assert(atoms[j as int].metal != Placement::spec_none() && atoms[j as int] != *a);
                    assert(!(forall|m: int| 0 <= m < atoms.len() && #[trigger] atoms[m].metal != Placement::spec_none() ==> atoms[m] == *a));
                }
                return false;
            }
            j = j + 1;
        }
    }
    true
}

impl IntegratedCircuit {
    /// Whether the cells form a circuit that can be compiled (see `spec_cells_valid`).
    pub fn cells_valid(cells: &Vec<CellEntry>) -> (r: bool)
        ensures
            r == spec_cells_valid(cells@),
    {
        if !locs_distinct(cells) {
            return false;
        }
        let mut i: usize = 0;
        while i < cells.len()
            invariant
                spec_locs_distinct(cells@),
                i <= cells@.len(),
                forall|i2: int, k: int| 0 <= i2 < i && 0 <= k < cell_atoms(cells@[i2].cell).len()
                    ==> spec_atom_valid(cells@, cells@[i2].loc, #[trigger] cell_atoms(cells@[i2].cell)[k], cell_atoms(cells@[i2].cell)),
            decreases cells@.len() - i,
        {
            let cell = &cells[i].cell;
            let loc = cells[i].loc;
            let n = cell_len(cell);
            let mut k: usize = 0;
            while k < n
                invariant
                    i < cells@.len(),
                    *cell == cells@[i as int].cell,
                    loc == cells@[i as int].loc,
                    n == cell_atoms(*cell).len(),
                    k <= n,
                    forall|i2: int, k2: int| 0 <= i2 < i && 0 <= k2 < cell_atoms(cells@[i2].cell).len()
                        ==> spec_atom_valid(cells@, cells@[i2].loc, #[trigger] cell_atoms(cells@[i2].cell)[k2], cell_atoms(cells@[i2].cell)),
                    forall|k2: int| 0 <= k2 < k ==> spec_atom_valid(cells@, loc, #[trigger] cell_atoms(*cell)[k2], cell_atoms(*cell)),
                decreases n - k,
            {
                let a = cell_get(cell, k);
                if !atom_valid(cells, loc, &a, cell) {
                    return false;
                }
                k = k + 1;
            }
            proof {
                assert forall|i2: int, k2: int| 0 <= i2 < i + 1 && 0 <= k2 < cell_atoms(cells@[i2].cell).len()
                    implies spec_atom_valid(cells@, cells@[i2].loc, #[trigger] cell_atoms(cells@[i2].cell)[k2], cell_atoms(cells@[i2].cell)) by {
                    if i2 == i {
                        assert(spec_atom_valid(cells@, loc, cell_atoms(*cell)[k2], cell_atoms(*cell)));
                    }
                }
            }
            i = i + 1;
        }
        true
    }
}


/// Putting a cell at its location changes what is found there and nothing else.
pub proof fn lemma_set_cell_at(cells: Seq<CellEntry>, e: CellEntry, l: IVec2)
    requires
        spec_locs_distinct(cells),
    ensures
        spec_locs_distinct(spec_set_cell(cells, e)),
        spec_cell_at(spec_set_cell(cells, e), l) == if l == e.loc {
            Some(cell_atoms(e.cell))
        } else {
            spec_cell_at(cells, l)
        },
{
    let c2 = spec_set_cell(cells, e);
    let has = exists|i: int| 0 <= i < cells.len() && #[trigger] cells[i].loc == e.loc;
    let ii = choose|i: int| 0 <= i < cells.len() && #[trigger] cells[i].loc == e.loc;
    if has {
        assert(c2 == cells.update(ii, e));
    } else {
        assert(c2 == cells.push(e));
    }
    assert forall|a: int, b: int| 0 <= a < c2.len() && 0 <= b < c2.len() && a != b implies #[trigger] c2[a].loc != #[trigger] c2[b].loc by {
        if has {
            if a != ii && b != ii {
                assert(c2[a] == cells[a] && c2[b] == cells[b]);
            } else if a == ii {
                assert(c2[b] == cells[b]);
            } else {
                assert(c2[a] == cells[a]);
            }
        } else {
            if a < cells.len() && b < cells.len() {
                assert(c2[a] == cells[a] && c2[b] == cells[b]);
            } else if a < cells.len() {
                assert(c2[a] == cells[a]);
            } else {
                assert(c2[b] == cells[b]);
            }
        }
    }
    lemma_cell_at_entry(cells, l);
    lemma_cell_at_entry(c2, l);
    if l == e.loc {
        let k = if has { ii } else { cells.len() as int };
        assert(c2[k] == e);
        lemma_cell_at_distinct(c2, k);
    } else {
        if let Some(atoms) = spec_cell_at(cells, l) {
            let j = choose|j: int| 0 <= j < cells.len() && (#[trigger] cells[j]).loc == l && cell_atoms(cells[j].cell) == atoms;
            assert(c2[j] == cells[j]);
            lemma_cell_at_distinct(c2, j);
        } else {
            if let Some(atoms2) = spec_cell_at(c2, l) {
                let j = choose|j: int| 0 <= j < c2.len() && (#[trigger] c2[j]).loc == l && cell_atoms(c2[j].cell) == atoms2;
                if has {
                    assert(j != ii);
                    assert(c2[j] == cells[j]);
                } else {
                    assert(j < cells.len());
                    assert(c2[j] == cells[j]);
                }
            }
        }
    }
}


/// The cell of the last change at `l`, if any change is at `l`.
pub open spec fn spec_last_change_at(changes: Seq<(IVec2, Cell)>, l: IVec2) -> Option<Cell>
    decreases changes.len(),
{
    if changes.len() == 0 {
        None
    } else if changes.last().0 == l {
        Some(changes.last().1)
    } else {
        spec_last_change_at(changes.drop_last(), l)
    }
}

/// Applying changes in order, the last change at a location wins; a location no change names
/// keeps its cell. The locations stay distinct.
pub proof fn lemma_apply_changes_at(cells: Seq<CellEntry>, changes: Seq<(IVec2, Cell)>, l: IVec2)
    requires
        spec_locs_distinct(cells),
    ensures
        spec_locs_distinct(spec_apply_changes(cells, changes)),
        spec_cell_at(spec_apply_changes(cells, changes), l) == match spec_last_change_at(changes, l) {
            Some(c) => Some(cell_atoms(c)),
            None => spec_cell_at(cells, l),
        },
    decreases changes.len(),
{
    if changes.len() > 0 {
        lemma_apply_changes_at(cells, changes.drop_last(), l);
        lemma_set_cell_at(
            spec_apply_changes(cells, changes.drop_last()),
            CellEntry { loc: changes.last().0, cell: changes.last().1 },
            l,
        );
    }
}


/// In a compiled circuit, an atom with a trace shares it with every atom it conducts to, and no
/// atom has the reserved trace 0.
pub proof fn lemma_compiled_neighbors_share_trace(ic: IntegratedCircuit, a: Atom, o: Atom)
    requires
        spec_compiled(ic),
        spec_trace_of(ic.trace_lookup_by_atom@, a) is Some,
    ensures
        spec_trace_of(ic.trace_lookup_by_atom@, a) != Some(0usize),
        spec_is_neighbor(ic.cells@, a, o) ==> spec_trace_of(ic.trace_lookup_by_atom@, o) == spec_trace_of(ic.trace_lookup_by_atom@, a),
{
    let lookup = ic.trace_lookup_by_atom@;
    lemma_trace_of_entry(lookup, a);
    let k = choose|k: int| 0 <= k < lookup.len() && (#[trigger] lookup[k]).atom == a
        && lookup[k].trace == spec_trace_of(lookup, a)->0;
    if spec_is_neighbor(ic.cells@, a, o) {
        assert(spec_is_neighbor(ic.cells@, lookup[k].atom, o));
    }
}

/// What committing cell changes gives (see `commit_cell_changes`): the last change at a location
/// wins and a location no change names keeps its cell; two stored atoms that conduct to each
/// other share their trace (or neither has one); and no atom has the reserved trace 0.
pub proof fn lemma_committed_circuit(
    before: Seq<CellEntry>,
    changes: Seq<(IVec2, Cell)>,
    after: IntegratedCircuit,
    l: IVec2,
    a: Atom,
    o: Atom,
)
    requires
        spec_locs_distinct(before),
        after.cells@ == spec_apply_changes(before, changes),
        spec_compiled(after),
    ensures
        spec_cell_at(after.cells@, l) == match spec_last_change_at(changes, l) {
            Some(c) => Some(cell_atoms(c)),
            None => spec_cell_at(before, l),
        },
        spec_in_cell(after.cells@, a) && spec_is_neighbor(after.cells@, a, o) ==> spec_trace_of(
            after.trace_lookup_by_atom@,
            a,
        ) == spec_trace_of(after.trace_lookup_by_atom@, o),
        spec_trace_of(after.trace_lookup_by_atom@, a) != Some(0usize),
{
    lemma_apply_changes_at(before, changes, l);
    let lookup = after.trace_lookup_by_atom@;
    if spec_trace_of(lookup, a) is Some {
        lemma_compiled_neighbors_share_trace(after, a, o);
    }
    if spec_in_cell(after.cells@, a) && spec_is_neighbor(after.cells@, a, o) && spec_trace_of(lookup, o) is Some {
        assert(spec_is_neighbor(after.cells@, o, a));
        lemma_compiled_neighbors_share_trace(after, o, a);
    }
}

} // verus!
