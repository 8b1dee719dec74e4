use vstd::prelude::*;

use crate::coords::IVec2;

verus! {

/// The parameters of one simulation tick.
#[derive(Clone, Copy, Debug, PartialEq, Eq, Structural)]
pub struct SimTickParams {
    pub tick: usize,
}

/// A module that drives I/O pins of the circuit.
#[derive(Debug)]
pub enum PinModule {
    /// Toggles its single pin every `interval` ticks.
    Clock { cell_loc: IVec2, interval: usize, name: String, starts_high: bool },
}

/// A named I/O pin at a cell.
#[derive(Debug)]
pub struct Pin {
    pub cell_loc: IVec2,
    pub name: String,
}

impl Clone for PinModule {
    fn clone(&self) -> (r: PinModule)
        ensures
            r == *self,
    {
        match self {
            PinModule::Clock { cell_loc, interval, name, starts_high } => PinModule::Clock {
                cell_loc: *cell_loc,
                interval: *interval,
                name: name.clone(),
                starts_high: *starts_high,
            },
        }
    }
}

impl Clone for Pin {
    fn clone(&self) -> (r: Pin)
        ensures
            r == *self,
    {
        Pin { cell_loc: self.cell_loc, name: self.name.clone() }
    }
}

impl PinModule {
    /// The pins of the module: a clock has a single pin at its cell, named after the clock.
    pub open spec fn spec_pins(self) -> Seq<Pin> {
        match self {
            PinModule::Clock { cell_loc, name, .. } => seq![Pin { cell_loc, name }],
        }
    }

    /// The pins of the module (see `spec_pins`).
    pub fn get_pins(&self) -> (r: Vec<Pin>)
        ensures
            r@ == self.spec_pins(),
    {
        match self {
            PinModule::Clock { name, cell_loc, .. } => {
                let v = vec![Pin { name: name.clone(), cell_loc: *cell_loc }];
                assert(v@ =~= self.spec_pins());
                v
            },
        }
    }
}

/// The simulation state of a pin module.
#[derive(Debug)]
pub enum PinModuleState {
    Clock { module: PinModule, next_edge: usize, high: bool },
}

/// The state of one pin: driven by the module (`input_high`) or by the circuit (`output_high`).
#[derive(Clone, Copy, Debug, PartialEq, Eq, Structural)]
pub struct PinState {
    pub input_high: bool,
    pub output_high: bool,
}

impl PinState {
    pub open spec fn spec_default() -> PinState {
        PinState { input_high: false, output_high: false }
    }
}

impl Default for PinState {
    fn default() -> (r: PinState)
        ensures
            r == PinState::spec_default(),
    {
        PinState { input_high: false, output_high: false }
    }
}

impl Clone for PinModuleState {
    fn clone(&self) -> (r: PinModuleState)
        ensures
            r == *self,
    {
        match self {
            PinModuleState::Clock { module, next_edge, high } => PinModuleState::Clock {
                module: module.clone(),
                next_edge: *next_edge,
                high: *high,
            },
        }
    }
}

impl PinModuleState {
    /// The starting state of a module: a clock's first edge comes after `interval` ticks, and its
    /// level starts at `starts_high`.
    pub open spec fn spec_instantiate(pin_module: PinModule) -> PinModuleState {
        match pin_module {
            PinModule::Clock { interval, starts_high, .. } => PinModuleState::Clock {
                module: pin_module,
                next_edge: interval,
                high: starts_high,
            },
        }
    }

    /// The starting state of a module (see `spec_instantiate`).
    pub fn instantiate(pin_module: &PinModule) -> (r: PinModuleState)
        ensures
            r == PinModuleState::spec_instantiate(*pin_module),
    {
        match pin_module {
            PinModule::Clock { interval, starts_high, .. } => PinModuleState::Clock {
                module: pin_module.clone(),
                next_edge: *interval,
                high: *starts_high,
            },
        }
    }

    /// The module's state after the tick in `params`: a clock flips its level once the tick
    /// reaches its next edge, and schedules the next edge `interval` ticks later.
    pub open spec fn spec_updated(self, params: SimTickParams) -> PinModuleState {
        match self {
            PinModuleState::Clock { module, next_edge, high } => {
                let interval = match module { PinModule::Clock { interval, .. } => interval };
                if params.tick >= next_edge {
                    PinModuleState::Clock { module, next_edge: (interval + params.tick) as usize, high: !high }
                } else {
                    self
                }
            },
        }
    }

    /// The module's pin states after the tick in `params`: a clock drives its pin at its level.
    pub open spec fn spec_updated_pins(self, pin_states: Seq<PinState>, params: SimTickParams) -> Seq<PinState> {
        match self.spec_updated(params) {
            PinModuleState::Clock { high, .. } => pin_states.update(0, PinState { input_high: high, ..pin_states[0] }),
        }
    }

    /// `interval + tick` fits in a `usize`, as updating a clock needs.
    pub open spec fn spec_can_update(self, params: SimTickParams) -> bool {
        match self {
            PinModuleState::Clock { module: PinModule::Clock { interval, .. }, .. } => interval + params.tick <= usize::MAX,
        }
    }

    /// Updates the module for the tick in `params` and drives its pins (see `spec_updated` and
    /// `spec_updated_pins`). `interval + tick` must fit in a `usize`.
    pub fn update_pin_state_inputs(&mut self, pin_states: &mut Vec<PinState>, params: &SimTickParams)
        requires
            old(pin_states)@.len() >= 1,
            old(self).spec_can_update(*params),
        ensures
            *final(self) == old(self).spec_updated(*params),
            final(pin_states)@ == old(self).spec_updated_pins(old(pin_states)@, *params),
    {
        match self {
            PinModuleState::Clock { module: PinModule::Clock { interval, .. }, next_edge, high } => {
                if params.tick >= *next_edge {
                    *high = !*high;
                    *next_edge = *interval + params.tick;
                }
                let mut state = pin_states[0];
                state.input_high = *high;
                pin_states.set(0, state);
            },
        }
    }

    /// Lets the module react to the pins the circuit drives. A clock ignores them.
    pub fn handle_pin_state_outputs(&mut self, _pin_states: &Vec<PinState>, _sim_state: &SimTickParams)
        ensures
            *final(self) == *old(self),
    {
    }
}

/// A clock flips its level at each edge and nowhere else: once the tick reaches its next edge, its
/// new level is the negation of its old one, the next edge comes `interval` ticks after this tick,
/// and its pin is driven at the new level; before the edge nothing changes and the pin is driven at
/// the old level.
pub proof fn lemma_clock_flips_at_edges(module: PinModule, next_edge: usize, high: bool, pins: Seq<PinState>, params: SimTickParams)
    requires
        module matches PinModule::Clock { interval, .. } && interval + params.tick <= usize::MAX,
        pins.len() >= 1,
    ensures
        ({
            let s = PinModuleState::Clock { module, next_edge, high };
            let interval = match module { PinModule::Clock { interval, .. } => interval };
            &&& params.tick >= next_edge ==> s.spec_updated(params) == (PinModuleState::Clock {
                module,
                next_edge: (interval + params.tick) as usize,
                high: !high,
            })
            &&& params.tick < next_edge ==> s.spec_updated(params) == s
            &&& s.spec_updated_pins(pins, params)[0].input_high == (if params.tick >= next_edge { !high } else { high })
            &&& s.spec_updated_pins(pins, params)[0].output_high == pins[0].output_high
            &&& s.spec_updated_pins(pins, params).len() == pins.len()
        }),
{
}

/// Over two consecutive edges a clock returns to its level: stepped at a tick that reaches its
/// edge and then at a tick that reaches the next one, its level is what it was before, and in
/// between it was the opposite.
pub proof fn lemma_clock_alternates(s: PinModuleState, p1: SimTickParams, p2: SimTickParams)
    requires
        s.spec_can_update(p1),
        s.spec_updated(p1).spec_can_update(p2),
        s matches PinModuleState::Clock { next_edge, .. } && p1.tick >= next_edge,
        s.spec_updated(p1) matches PinModuleState::Clock { next_edge, .. } && p2.tick >= next_edge,
    ensures
        ({
            let h0 = match s { PinModuleState::Clock { high, .. } => high };
            let h1 = match s.spec_updated(p1) { PinModuleState::Clock { high, .. } => high };
            let h2 = match s.spec_updated(p1).spec_updated(p2) { PinModuleState::Clock { high, .. } => high };
            h1 == !h0 && h2 == h0
        }),
{
}

} // verus!
