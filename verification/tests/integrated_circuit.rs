use logic_paint::coords::IVec2;
use logic_paint::substrate::atom::Cell;
use logic_paint::substrate::integrated_circuit::IntegratedCircuit;
use logic_paint::substrate::normalized_cell::{Metal, NormalizedCell, Silicon};
use logic_paint::substrate::pin::{PinModule, PinModuleState};
use logic_paint::substrate::placement::Placement;

fn cell(x: i32, y: i32, metal: Metal, si: Silicon) -> (IVec2, Cell) {
    let loc = IVec2::new(x, y);
    (loc, Cell::from(NormalizedCell { cell_loc: loc, metal, si }))
}

fn metal(p: Placement) -> Metal {
    Metal::Trace { has_via: false, placement: p }
}

fn clock(x: i32, y: i32, interval: usize, starts_high: bool) -> PinModule {
    PinModule::Clock { cell_loc: IVec2::new(x, y), interval, name: "clk".to_string(), starts_high }
}

/// A P-type si trace (with a via under the pin) feeding the base of an NPN MOSFET, whose two
/// emitter/collector sides run up and down.
fn mosfet_circuit() -> IntegratedCircuit {
    let cells = vec![
        cell(0, 0, Metal::Trace { has_via: true, placement: Placement::center_only() }, Silicon::NP { is_n: false, placement: Placement::right() }),
        cell(1, 0, Metal::Absent, Silicon::Mosfet {
            is_npn: true,
            gate_placement: Placement::left(),
            ec_placement: Placement::up().bitor(Placement::down()),
        }),
        cell(1, 1, Metal::Absent, Silicon::NP { is_n: true, placement: Placement::down() }),
        cell(1, -1, Metal::Absent, Silicon::NP { is_n: true, placement: Placement::up() }),
    ];
    IntegratedCircuit::new(cells, vec![clock(0, 0, 1, true)])
}

#[test]
fn metal_line_is_one_trace() {
    let cells = vec![
        cell(0, 0, metal(Placement::right()), Silicon::Absent),
        cell(1, 0, metal(Placement::left().bitor(Placement::right())), Silicon::Absent),
        cell(2, 0, metal(Placement::left()), Silicon::Absent),
        cell(5, 5, metal(Placement::center_only()), Silicon::Absent),
    ];
    let ic = IntegratedCircuit::new(cells, vec![clock(0, 0, 2, false)]);
    // The null trace and the trace under the pin; the lone cell is not reachable.
    assert_eq!(ic.traces.len(), 2);
    assert_eq!(ic.traces[0].len(), 0);
    assert_eq!(ic.traces[1].len(), 3);
    assert!(ic.gates.is_empty());
    let far = ic.get_cell_by_location(&IVec2::new(2, 0)).unwrap()[0];
    assert_eq!(ic.get_trace_handle_by_atom(&far), Some(1));
    let lone = ic.get_cell_by_location(&IVec2::new(5, 5)).unwrap()[0];
    assert_eq!(ic.get_trace_handle_by_atom(&lone), None);
    assert!(ic.get_cell_by_location(&IVec2::new(9, 9)).is_none());
}

#[test]
fn mosfet_compiles_to_a_gate() {
    let ic = mosfet_circuit();
    assert_eq!(ic.traces.len(), 4);
    assert_eq!(ic.gates.len(), 1);
    let g = ic.gates[0];
    assert!(g.is_npn);
    assert_eq!(g.base_trace, 1);
    let mut ec = vec![g.left_ec_trace, g.right_ec_trace];
    ec.sort();
    assert_eq!(ec, vec![2, 3]);
}

#[test]
fn simulation_steps() {
    let ic = mosfet_circuit();
    let st = ic.build_new_sim_state();
    assert_eq!(st.params.tick, 0);
    assert_eq!(st.trace_states, vec![false; 4]);
    assert_eq!(st.gate_states, vec![false]);
    assert_eq!(st.pin_states.len(), 1);
    assert_eq!(st.pin_states[0].len(), 1);

    // Tick 0: the clock starts high and the next edge is at tick 1.
    let st = ic.step_simulation_state(st);
    assert_eq!(st.params.tick, 1);
    assert!(st.pin_states[0][0].input_high);
    assert_eq!(st.trace_states, vec![false, true, false, false]);
    assert_eq!(st.gate_states, vec![true]);

    // Tick 1: the clock flips low.
    let st = ic.step_simulation_state(st);
    assert_eq!(st.params.tick, 2);
    assert!(!st.pin_states[0][0].input_high);
    assert_eq!(st.trace_states, vec![false; 4]);
    assert_eq!(st.gate_states, vec![false]);
    match &st.pin_module_states[0] {
        PinModuleState::Clock { next_edge, high, .. } => {
            assert_eq!(*next_edge, 2);
            assert!(!*high);
        },
    }
}

#[test]
fn conducting_gate_joins_its_sides() {
    // The upper side of the MOSFET is driven by a second clock through a via.
    let cells = vec![
        cell(0, 0, Metal::Trace { has_via: true, placement: Placement::center_only() }, Silicon::NP { is_n: false, placement: Placement::right() }),
        cell(1, 0, Metal::Absent, Silicon::Mosfet {
            is_npn: true,
            gate_placement: Placement::left(),
            ec_placement: Placement::up().bitor(Placement::down()),
        }),
        cell(1, 1, Metal::Trace { has_via: true, placement: Placement::center_only() }, Silicon::NP { is_n: true, placement: Placement::down() }),
        cell(1, -1, Metal::Absent, Silicon::NP { is_n: true, placement: Placement::up() }),
    ];
    let ic = IntegratedCircuit::new(cells, vec![clock(0, 0, 100, true), clock(1, 1, 100, true)]);
    let st = ic.build_new_sim_state();
    let st = ic.step_simulation_state(st);
    // No gate was conducting yet: only the driven traces are high.
    let low_side = ic.get_trace_handle_by_atom(&ic.get_cell_by_location(&IVec2::new(1, -1)).unwrap()[0]).unwrap();
    assert!(!st.trace_states[low_side]);
    assert_eq!(st.gate_states, vec![true]);
    let st = ic.step_simulation_state(st);
    // Now the conducting gate carries the high side through.
    assert!(st.trace_states[low_side]);
}

#[test]
fn commit_changes_and_add_pins() {
    let mut ic = IntegratedCircuit::default();
    assert_eq!(ic.build_new_sim_state().trace_states.len(), 0);
    ic.commit_cell_changes(vec![cell(0, 0, metal(Placement::center_only()), Silicon::Absent)]);
    assert_eq!(ic.traces.len(), 1);
    ic.add_pin_module(clock(0, 0, 1, false));
    assert_eq!(ic.traces.len(), 2);
    ic.commit_cell_changes(vec![cell(0, 0, metal(Placement::right()), Silicon::Absent), cell(1, 0, metal(Placement::left()), Silicon::Absent)]);
    assert_eq!(ic.cells.len(), 2);
    assert_eq!(ic.traces[1].len(), 2);
}

#[test]
fn committed_changes_last_write_wins_and_neighbours_share_traces() {
    let mut ic = IntegratedCircuit::new(vec![], vec![clock(0, 0, 1, false)]);
    ic.commit_cell_changes(vec![
        cell(0, 0, metal(Placement::center_only()), Silicon::Absent),
        cell(1, 0, metal(Placement::left()), Silicon::Absent),
        cell(0, 0, metal(Placement::right()), Silicon::Absent),
    ]);
    // The second change at (0, 0) wins.
    let (_, expected) = cell(0, 0, metal(Placement::right()), Silicon::Absent);
    assert_eq!(ic.get_cell_by_location(&IVec2::new(0, 0)), Some(&expected));
    let a = ic.get_cell_by_location(&IVec2::new(0, 0)).unwrap()[0];
    let b = ic.get_cell_by_location(&IVec2::new(1, 0)).unwrap()[0];
    assert!(a.neighbor_of(&b));
    assert_eq!(ic.get_trace_handle_by_atom(&a), ic.get_trace_handle_by_atom(&b));
    assert_ne!(ic.get_trace_handle_by_atom(&a), Some(0));
    assert!(ic.get_trace_handle_by_atom(&a).is_some());
}
