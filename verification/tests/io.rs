use logic_paint::coords::{CellCoord, IVec2};
use logic_paint::substrate::io::{range_iter, BoolState, Drag, IoState};

fn state(clicked: bool, down: bool, released: bool) -> BoolState {
    BoolState { clicked, down, released }
}

#[test]
fn bool_state_transitions() {
    let s = BoolState::default();
    let s = s.transition(true);
    assert_eq!(s, state(true, true, false));
    let s = s.transition(true);
    assert_eq!(s, state(false, true, false));
    let s = s.transition(false);
    assert_eq!(s, state(false, false, true));
    let s = s.transition(false);
    assert_eq!(s, state(false, false, false));
}

#[test]
fn bool_state_tick_settles() {
    let mut s = state(true, true, false);
    s.tick();
    assert_eq!(s, state(false, true, false));
    s.tick();
    assert_eq!(s, state(false, true, false));
    let mut r = state(false, false, true);
    r.tick();
    assert_eq!(r, BoolState::default());
}

#[test]
fn range_iter_both_ways() {
    assert_eq!(range_iter(2, 5), vec![2, 3, 4]);
    assert_eq!(range_iter(5, 2), vec![5, 4, 3]);
    assert!(range_iter(3, 3).is_empty());
}

#[test]
fn keys_go_down_and_up() {
    let mut io = IoState::new();
    io.event_key_down("a".to_string(), "KeyA".to_string());
    assert_eq!(io.get_key_code("KeyA"), state(true, true, false));
    assert_eq!(io.get_key("a"), state(true, true, false));
    io.event_key_down("a".to_string(), "KeyA".to_string());
    assert_eq!(io.get_key_code("KeyA"), state(false, true, false));
    io.event_key_up("a".to_string(), "KeyA".to_string());
    assert_eq!(io.get_key_code("KeyA"), state(false, false, true));
    io.event_mouse_presence(true);
    // The released key went inactive and was dropped.
    assert_eq!(io.keys.len(), 0);
    assert_eq!(io.get_key_code("KeyA"), BoolState::default());
    assert_eq!(io.hovered, state(true, true, false));
}

#[test]
fn drag_starts_fixes_impulse_and_ends() {
    let mut io = IoState::new();
    io.event_mouse(1, CellCoord::new(0, 0));
    assert!(io.primary.clicked);
    let d = io.drag.unwrap();
    assert_eq!(d.start, CellCoord::new(0, 0));
    io.event_mouse(1, CellCoord::new(1, 3));
    assert!(io.drag.unwrap().initial_impulse_vertical);
    io.event_mouse(1, CellCoord::new(2, 3));
    assert!(io.drag.unwrap().initial_impulse_vertical);
    io.event_mouse(0, CellCoord::new(2, 3));
    assert!(io.drag.is_none());
    assert!(io.primary.released);
}

#[test]
fn drag_path_vertical_first() {
    let mut io = IoState::new();
    io.drag = Some(Drag { start: CellCoord::new(0, 0), initial_impulse_vertical: true });
    io.cell = CellCoord::new(2, 2);
    let path = io.get_drag_path();
    let expect: Vec<CellCoord> = vec![(0, 0), (0, 1), (0, 2), (1, 2), (2, 2)].into_iter().map(CellCoord::from).collect();
    assert_eq!(path, expect);
}

#[test]
fn drag_path_horizontal_first() {
    let mut io = IoState::new();
    io.drag = Some(Drag { start: CellCoord::new(1, 1), initial_impulse_vertical: false });
    io.cell = CellCoord::new(-1, 0);
    let path = io.get_drag_path();
    let expect: Vec<CellCoord> = vec![(1, 1), (0, 1), (-1, 1), (-1, 0)].into_iter().map(CellCoord::from).collect();
    assert_eq!(path, expect);
}

#[test]
fn drag_path_without_drag_is_the_cell() {
    let mut io = IoState::new();
    io.cell = CellCoord(IVec2::new(4, 4));
    assert_eq!(io.get_drag_path(), vec![CellCoord::new(4, 4)]);
}

#[test]
fn drag_path_is_connected() {
    for vertical in [false, true] {
        let mut io = IoState::new();
        io.drag = Some(Drag { start: CellCoord::new(3, -2), initial_impulse_vertical: vertical });
        io.cell = CellCoord::new(-4, 5);
        let path = io.get_drag_path();
        assert_eq!(path.len(), 7 + 7 + 1);
        assert_eq!(path[0], CellCoord::new(3, -2));
        assert_eq!(*path.last().unwrap(), CellCoord::new(-4, 5));
        for w in path.windows(2) {
            let d = (w[0].0.x - w[1].0.x).abs() + (w[0].0.y - w[1].0.y).abs();
            assert_eq!(d, 1);
        }
    }
}
