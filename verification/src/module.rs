use vstd::prelude::*;

use crate::substrate::execution::SimState;

verus! {

pub type ModuleGpioHandle = usize;

/// Connects a module GPIO to a substrate socket.
#[derive(Debug)]
pub struct ModuleGpio {
    /// The handle used to communicate with this GPIO, generally just the index of the GPIO in the
    /// Vec storing the module's GPIOs.
    pub handle: ModuleGpioHandle,
    /// The human-readable name for this GPIO
    pub name: String,
    /// The 'bond wire' that connects this GPIO to a substrate Socket.
    pub bonding: Option<String>,
    /// When set to true, the module will be notified (at the completion of the tick) when the
    /// `si_output_high` transitions from false to true.
    pub trigger: bool,
    /// Set to true when the substrate is driving the pin high.
    pub si_output_high: bool,
    /// Set to true by the module, to drive the substrate socket to high.
    pub si_input_high: bool,
}

/// A module attached to the substrate through GPIOs.
pub trait Module {
    /// The module's own consistency condition (such as how many GPIOs it has).
    spec fn valid(&self) -> bool;

    /// The module's GPIOs.
    spec fn gpios(&self) -> Seq<ModuleGpio>;

    /// Provides the human-readable name for this module.
    fn get_name(&self) -> &str;

    /// Resets the module back to it's pre-execution state.
    fn reset(&mut self)
        requires
            old(self).valid(),
        ensures
            final(self).valid(),
    ;

    /// Provides a list of GPIOs, each with a unique handle that can be referenced by the module.
    fn get_gpios_mut(&mut self) -> (r: &mut Vec<ModuleGpio>)
        ensures
            r@ == old(self).gpios(),
            final(self).gpios() == final(r)@,
    ;

    /// Called when one or more GPIOs have been triggered. By the time this is called, the
    /// ModuleGpio instance has already been updated.
    fn trigger(&mut self, sim_state: &SimState, handles: Vec<ModuleGpioHandle>)
        requires
            old(self).valid(),
        ensures
            final(self).valid(),
    {
    }

    /// Called each clock cycle.
    fn clock(&mut self, sim_state: &SimState)
        requires
            old(self).valid(),
        ensures
            final(self).valid(),
    {
    }
}

/// A module with a single `CLK` GPIO that it drives high on even ticks.
#[derive(Debug)]
pub struct ModuleClock {
    gpios: Vec<ModuleGpio>,
}

impl ModuleClock {
    pub closed spec fn spec_gpios(&self) -> Seq<ModuleGpio> {
        self.gpios@
    }
}

impl Default for ModuleClock {
    fn default() -> (r: ModuleClock)
        ensures
            r.spec_gpios().len() == 1,
            r.spec_gpios()[0].handle == 0,
            r.spec_gpios()[0].name@ == "CLK"@,
            r.spec_gpios()[0].bonding is None,
            !r.spec_gpios()[0].trigger,
            !r.spec_gpios()[0].si_output_high,
            !r.spec_gpios()[0].si_input_high,
    {
        ModuleClock {
            gpios: vec![ModuleGpio {
                handle: 0,
                name: "CLK".to_owned(),
                bonding: None,
                trigger: false,
                si_output_high: false,
                si_input_high: false,
            }],
        }
    }
}

impl Module for ModuleClock {
    open spec fn valid(&self) -> bool {
        self.spec_gpios().len() >= 1
    }

    open spec fn gpios(&self) -> Seq<ModuleGpio> {
        self.spec_gpios()
    }

    fn get_name(&self) -> (r: &str)
        ensures
            r@ == "Clock"@,
    {
        "Clock"
    }

    /// Stops driving the `CLK` GPIO.
    fn reset(&mut self)
        ensures
            final(self).spec_gpios() == old(self).spec_gpios().update(
                0,
                ModuleGpio { si_input_high: false, ..old(self).spec_gpios()[0] },
            ),
    {
        self.gpios[0].si_input_high = false;
        assert(self.gpios@ =~= old(self).gpios@.update(0, ModuleGpio { si_input_high: false, ..old(self).gpios@[0] }));
    }

    fn get_gpios_mut(&mut self) -> (r: &mut Vec<ModuleGpio>) {
        &mut self.gpios
    }

    /// Drives the `CLK` GPIO high on even ticks and low on odd ones.
    fn clock(&mut self, sim_state: &SimState)
        ensures
            final(self).spec_gpios() == old(self).spec_gpios().update(
                0,
                ModuleGpio { si_input_high: sim_state.ticks % 2 == 0, ..old(self).spec_gpios()[0] },
            ),
    {
        self.gpios[0].si_input_high = sim_state.ticks % 2 == 0;
        assert(self.gpios@ =~= old(self).gpios@.update(0, ModuleGpio { si_input_high: sim_state.ticks % 2 == 0, ..old(self).gpios@[0] }));
    }
}

} // verus!
