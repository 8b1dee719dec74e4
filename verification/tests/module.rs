use logic_paint::module::{Module, ModuleClock};
use logic_paint::substrate::execution::SimState;

#[test]
fn clock_follows_tick_parity() {
    let mut m = ModuleClock::default();
    assert_eq!(m.get_name(), "Clock");
    let mut st = SimState::default();
    st.ticks = 4;
    m.clock(&st);
    assert!(m.get_gpios_mut()[0].si_input_high);
    st.ticks = 5;
    m.clock(&st);
    assert!(!m.get_gpios_mut()[0].si_input_high);
    m.get_gpios_mut()[0].si_input_high = true;
    m.reset();
    assert!(!m.get_gpios_mut()[0].si_input_high);
    assert_eq!(m.get_gpios_mut()[0].name, "CLK");
}

