use vstd::prelude::*;

verus! {

/// The simulation state of an execution: tick counters and the levels of gates and traces.
#[derive(Debug)]
pub struct SimState {
    pub micro_ticks: usize,
    pub ticks: usize,
    pub gate_states: Vec<bool>,
    pub trace_states: Vec<bool>,
}

impl Default for SimState {
    fn default() -> (r: SimState)
        ensures
            r.micro_ticks == 0,
            r.ticks == 0,
            r.gate_states@.len() == 0,
            r.trace_states@.len() == 0,
    {
        SimState { micro_ticks: 0, ticks: 0, gate_states: Vec::new(), trace_states: Vec::new() }
    }
}

} // verus!
