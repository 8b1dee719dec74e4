use vstd::prelude::*;
use vstd::string::StrSliceExecFns;

use crate::coords::{CellCoord, IVec2};

verus! {

/// The per-dispatch state of a button or key.
#[derive(Clone, Copy, Debug, PartialEq, Eq, Structural)]
pub struct BoolState {
    /// The key was just clicked this dispatch.
    pub clicked: bool,
    /// The key is being held down. Can be true when `clicked` is true.
    pub down: bool,
    /// The key was just released this dispatch.
    pub released: bool,
}

impl BoolState {
    pub open spec fn spec_new(clicked: bool, down: bool, released: bool) -> BoolState {
        BoolState { clicked, down, released }
    }

    /// Inactive: not clicked, not held, not released.
    pub open spec fn spec_default() -> BoolState {
        BoolState::spec_new(false, false, false)
    }

    /// A state a button can be in: a click is held down and a release is not.
    pub open spec fn spec_valid(self) -> bool {
        (self.clicked ==> self.down) && (self.released ==> !self.down) && !(self.clicked && self.released)
    }

    /// One dispatch later: a click becomes held, a release becomes inactive, steady states stay.
    pub open spec fn spec_tick(self) -> BoolState {
        if self.clicked {
            BoolState::spec_new(false, true, false)
        } else if self.released {
            BoolState::spec_new(false, false, false)
        } else {
            self
        }
    }

    /// The state after observing the input `new_state`: down follows the input, a click is a rise
    /// and a release is a fall.
    pub open spec fn spec_transition(self, new_state: bool) -> BoolState {
        BoolState::spec_new(new_state && !self.down, new_state, !new_state && self.down)
    }

    /// Steps the boolean state forward if it's in a single-frame state (clicked or released). Has
    /// no effect if the state is steady (inactive or held)
    pub fn tick(&mut self)
        ensures
            *final(self) == old(self).spec_tick(),
    {
        if self.clicked {
            // State continues to be true
            *self = BoolState { clicked: false, down: true, released: false }
        } else if self.released {
            // State finished release
            *self = BoolState { clicked: false, down: false, released: false }
        }
    }

    /// Transisition the boolean state forward, given the new input. Steps to/from both
    /// single-frame states and steady states.
    pub fn transition(self, new_state: bool) -> (r: BoolState)
        ensures
            r == self.spec_transition(new_state),
    {
        if new_state {
            if !self.down {
                // State is first true
                BoolState { clicked: true, down: true, released: false }
            } else {
                // State continues to be true
                BoolState { clicked: false, down: true, released: false }
            }
        } else {
            if self.down {
                // State is first false
                BoolState { clicked: false, down: false, released: true }
            } else {
                // State continues to be false
                BoolState { clicked: false, down: false, released: false }
            }
        }
    }
}

impl Default for BoolState {
    fn default() -> (r: BoolState)
        ensures
            r == BoolState::spec_default(),
    {
        BoolState { clicked: false, down: false, released: false }
    }
}

/// Ticking twice is ticking once; a ticked state is neither clicked nor released; transitions and
/// ticks keep a state valid.
pub proof fn lemma_bool_state_laws(b: BoolState, input: bool)
    ensures
        b.spec_tick().spec_tick() == b.spec_tick(),
        b.spec_valid() ==> !b.spec_tick().clicked && !b.spec_tick().released,
        b.spec_valid() ==> b.spec_tick().down == b.down,
        b.spec_transition(input).spec_valid(),
        b.spec_valid() ==> b.spec_tick().spec_valid(),
        b.spec_transition(input).down == input,
{
}

/// The state of one keyboard key.
#[derive(Debug)]
pub struct KeyState {
    pub key_code: String,
    pub key: String,
    pub state: BoolState,
}

impl Clone for KeyState {
    fn clone(&self) -> (r: KeyState)
        ensures
            r == *self,
    {
        KeyState { key_code: self.key_code.clone(), key: self.key.clone(), state: self.state }
    }
}

/// A drag in progress: where it started, and whether the mouse first moved vertically.
#[derive(Clone, Copy, Debug, PartialEq, Eq, Structural)]
pub struct Drag {
    pub start: CellCoord,
    pub initial_impulse_vertical: bool,
}

/// Whether the string `a` holds exactly the characters of `b`.
pub(crate) fn string_eq_str(a: &String, b: &str) -> (r: bool)
    ensures
        r == (a@ == b@),
{
    let s = a.as_str();
    let n = s.unicode_len();
    if n != b.unicode_len() {
        return false;
    }
    let mut i: usize = 0;
    while i < n
        invariant
            s@ == a@,
            n == s@.len(),
            n == b@.len(),
            i <= n,
            forall|j: int| 0 <= j < i ==> s@[j] == b@[j],
        decreases n - i,
    {
        if s.get_char(i) != b.get_char(i) {
            return false;
        }
        i = i + 1;
    }
    assert(s@ =~= b@);
    true
}

/// The input state of the editor (the parts that are not screen geometry).
#[derive(Debug)]
pub struct IoState {
    pub hovered: BoolState,
    pub primary: BoolState,
    pub secondary: BoolState,
    pub drag: Option<Drag>,
    pub keys: Vec<KeyState>,
    pub cell: CellCoord,
}

/// The keys with each state ticked, keeping only the keys that are still active.
pub open spec fn spec_tick_keys(keys: Seq<KeyState>) -> Seq<KeyState>
    decreases keys.len(),
{
    if keys.len() == 0 {
        Seq::empty()
    } else {
        let prev = spec_tick_keys(keys.drop_last());
        let k = KeyState { state: keys.last().state.spec_tick(), ..keys.last() };
        if k.state != BoolState::spec_default() {
            prev.push(k)
        } else {
            prev
        }
    }
}

/// The keys whose key code differs from `code`.
pub open spec fn spec_without_code(keys: Seq<KeyState>, code: Seq<char>) -> Seq<KeyState>
    decreases keys.len(),
{
    if keys.len() == 0 {
        Seq::empty()
    } else {
        let prev = spec_without_code(keys.drop_last(), code);
        if keys.last().key_code@ != code {
            prev.push(keys.last())
        } else {
            prev
        }
    }
}

/// The state of the first key whose key code (or key, when `by_code` is false) is `name`, or the
/// inactive state when there is none.
pub open spec fn spec_find_key(keys: Seq<KeyState>, name: Seq<char>, by_code: bool) -> BoolState
    decreases keys.len(),
{
    if keys.len() == 0 {
        BoolState::spec_default()
    } else if (if by_code { keys[0].key_code@ } else { keys[0].key@ }) == name {
        keys[0].state
    } else {
        spec_find_key(keys.drop_first(), name, by_code)
    }
}

/// The coordinates visited going from `start` towards `end`, one step at a time, excluding `end`.
pub open spec fn spec_range(start: i32, end: i32) -> Seq<i32> {
    if start <= end {
        Seq::new((end - start) as nat, |k: int| (start + k) as i32)
    } else {
        Seq::new((start - end) as nat, |k: int| (start - k) as i32)
    }
}

/// The cells a drag from `start` to `end` paints: along the first axis (y when vertical, x
/// otherwise) from the start, then along the other axis up to the end, then the end itself.
pub open spec fn spec_drag_path(start: IVec2, end: IVec2, vertical: bool) -> Seq<CellCoord> {
    if vertical {
        spec_range(start.y, end.y).map_values(|y: i32| CellCoord(IVec2 { x: start.x, y }))
            + spec_range(start.x, end.x).map_values(|x: i32| CellCoord(IVec2 { x, y: end.y }))
            + seq![CellCoord(end)]
    } else {
        spec_range(start.x, end.x).map_values(|x: i32| CellCoord(IVec2 { x, y: start.y }))
            + spec_range(start.y, end.y).map_values(|y: i32| CellCoord(IVec2 { x: end.x, y }))
            + seq![CellCoord(end)]
    }
}

/// Whether the cells `a` and `b` share an edge.
pub open spec fn spec_adjacent(a: CellCoord, b: CellCoord) -> bool {
    abs(a.0.x - b.0.x) + abs(a.0.y - b.0.y) == 1
}

proof fn lemma_range(a: i32, b: i32)
    ensures
        spec_range(a, b).len() == abs(b - a),
        forall|k: int| 0 <= k < spec_range(a, b).len() ==> #[trigger] spec_range(a, b)[k] == (if a <= b { a + k } else { a - k }),
{
}

/// A drag paints a connected path: it starts at the drag's start cell, ends at the pointer's
/// cell, holds one cell more than the Manhattan distance between them, and each cell shares an
/// edge with the next.
pub proof fn lemma_drag_path_connected(start: IVec2, end: IVec2, vertical: bool)
    ensures
        spec_drag_path(start, end, vertical).len() == abs(end.x - start.x) + abs(end.y - start.y) + 1,
        spec_drag_path(start, end, vertical)[0] == CellCoord(start),
        spec_drag_path(start, end, vertical).last() == CellCoord(end),
        forall|i: int, j: int| 0 <= i && j == i + 1 && j < spec_drag_path(start, end, vertical).len()
            ==> spec_adjacent(#[trigger] spec_drag_path(start, end, vertical)[i], #[trigger] spec_drag_path(start, end, vertical)[j]),
{
    let p = spec_drag_path(start, end, vertical);
    lemma_range(start.x, end.x);
    lemma_range(start.y, end.y);
    let rx = spec_range(start.x, end.x);
    let ry = spec_range(start.y, end.y);
    if vertical {
        let a = ry.map_values(|y: i32| CellCoord(IVec2 { x: start.x, y }));
        let b = rx.map_values(|x: i32| CellCoord(IVec2 { x, y: end.y }));
        assert(p == a + b + seq![CellCoord(end)]);
        assert forall|i: int, j: int| 0 <= i && j == i + 1 && j < p.len() implies spec_adjacent(#[trigger] p[i], #[trigger] p[j]) by {
            if j < a.len() {
                assert(p[i] == a[i] && p[j] == a[j]);
                assert(a[i] == CellCoord(IVec2 { x: start.x, y: ry[i] }));
                assert(a[j] == CellCoord(IVec2 { x: start.x, y: ry[j] }));
            } else if i < a.len() {
                assert(p[i] == a[i]);
                assert(a[i] == CellCoord(IVec2 { x: start.x, y: ry[i] }));
                if b.len() > 0 {
                    assert(p[j] == b[0]);
                    assert(b[0] == CellCoord(IVec2 { x: rx[0], y: end.y }));
                } else {
                    assert(p[j] == CellCoord(end));
                }
            } else if j < a.len() + b.len() {
                assert(p[i] == b[i - a.len()] && p[j] == b[j - a.len()]);
                assert(b[i - a.len()] == CellCoord(IVec2 { x: rx[i - a.len()], y: end.y }));
                assert(b[j - a.len()] == CellCoord(IVec2 { x: rx[j - a.len()], y: end.y }));
            } else {
                assert(p[i] == b[i - a.len()] && p[j] == CellCoord(end));
                assert(b[i - a.len()] == CellCoord(IVec2 { x: rx[i - a.len()], y: end.y }));
            }
        }
        if a.len() > 0 {
            assert(p[0] == a[0]);
        } else if b.len() > 0 {
            assert(p[0] == b[0]);
        } else {
            assert(p[0] == CellCoord(end));
        }
        assert(start == IVec2 { x: start.x, y: start.y });
    } else {
        let a = rx.map_values(|x: i32| CellCoord(IVec2 { x, y: start.y }));
        let b = ry.map_values(|y: i32| CellCoord(IVec2 { x: end.x, y }));
        assert(p == a + b + seq![CellCoord(end)]);
        assert forall|i: int, j: int| 0 <= i && j == i + 1 && j < p.len() implies spec_adjacent(#[trigger] p[i], #[trigger] p[j]) by {
            if j < a.len() {
                assert(p[i] == a[i] && p[j] == a[j]);
                assert(a[i] == CellCoord(IVec2 { x: rx[i], y: start.y }));
                assert(a[j] == CellCoord(IVec2 { x: rx[j], y: start.y }));
            } else if i < a.len() {
                assert(p[i] == a[i]);
                assert(a[i] == CellCoord(IVec2 { x: rx[i], y: start.y }));
                if b.len() > 0 {
                    assert(p[j] == b[0]);
                    assert(b[0] == CellCoord(IVec2 { x: end.x, y: ry[0] }));
                } else {
                    assert(p[j] == CellCoord(end));
                }
            } else if j < a.len() + b.len() {
                assert(p[i] == b[i - a.len()] && p[j] == b[j - a.len()]);
                assert(b[i - a.len()] == CellCoord(IVec2 { x: end.x, y: ry[i - a.len()] }));
                assert(b[j - a.len()] == CellCoord(IVec2 { x: end.x, y: ry[j - a.len()] }));
            } else {
                assert(p[i] == b[i - a.len()] && p[j] == CellCoord(end));
                assert(b[i - a.len()] == CellCoord(IVec2 { x: end.x, y: ry[i - a.len()] }));
            }
        }
        if a.len() > 0 {
            assert(p[0] == a[0]);
        } else if b.len() > 0 {
            assert(p[0] == b[0]);
        } else {
            assert(p[0] == CellCoord(end));
        }
        assert(start == IVec2 { x: start.x, y: start.y });
    }
}

/// The coordinates from `start` towards `end`, excluding `end` (see `spec_range`).
pub fn range_iter(start: i32, end: i32) -> (r: Vec<i32>)
    ensures
        r@ == spec_range(start, end),
{
    let mut v: Vec<i32> = Vec::new();
    if start <= end {
        let mut i = start;
        while i < end
            invariant
                start <= i <= end,
                v@ =~= Seq::new((i - start) as nat, |k: int| (start + k) as i32),
            decreases end - i,
        {
            v.push(i);
            i = i + 1;
        }
    } else {
        let mut i = start;
        while i > end
            invariant
                end <= i <= start,
                v@ =~= Seq::new((start - i) as nat, |k: int| (start - k) as i32),
            decreases i - end,
        {
            v.push(i);
            i = i - 1;
        }
    }
    v
}


/// The state of `code` after a key event: the same key code's previous state transitioned to
/// `down`.
pub open spec fn spec_key_event(keys: Seq<KeyState>, key: String, code: String, down: bool) -> KeyState {
    KeyState { key_code: code, key, state: spec_find_key(keys, code@, true).spec_transition(down) }
}

/// The drag state after a mouse event that moved the pointer from `old_cell` to `new_cell`, with
/// the primary and secondary buttons now in `primary` and `secondary`.
pub open spec fn spec_drag_after(
    drag: Option<Drag>,
    old_cell: CellCoord,
    new_cell: CellCoord,
    primary: BoolState,
    secondary: BoolState,
) -> Option<Drag> {
    let started = if (primary.clicked || secondary.clicked) && drag is None {
        Some(Drag { start: new_cell, initial_impulse_vertical: false })
    } else {
        drag
    };
    let kept = if !primary.down && !secondary.down {
        None
    } else {
        started
    };
    match kept {
        Some(d) => if old_cell == d.start && new_cell != d.start {
            let dx = new_cell.0.x - d.start.0.x;
            let dy = new_cell.0.y - d.start.0.y;
            Some(Drag { start: d.start, initial_impulse_vertical: abs(dx) < abs(dy) })
        } else {
            Some(d)
        },
        None => None,
    }
}

pub open spec fn abs(x: int) -> int {
    if x < 0 { -x } else { x }
}

impl IoState {
    pub fn new() -> (r: IoState)
        ensures
            r.hovered == BoolState::spec_default(),
            r.primary == BoolState::spec_default(),
            r.secondary == BoolState::spec_default(),
            r.drag is None,
            r.keys@.len() == 0,
            r.cell == CellCoord(IVec2::spec_zero()),
    {
        IoState {
            hovered: BoolState::default(),
            primary: BoolState::default(),
            secondary: BoolState::default(),
            drag: None,
            keys: Vec::new(),
            cell: CellCoord(IVec2::zero()),
        }
    }

    /// Ticks every boolean state once and keeps only the keys that are still active.
    pub fn tick(&mut self)
        ensures
            final(self).hovered == old(self).hovered.spec_tick(),
            final(self).primary == old(self).primary.spec_tick(),
            final(self).secondary == old(self).secondary.spec_tick(),
            final(self).keys@ == spec_tick_keys(old(self).keys@),
            final(self).drag == old(self).drag,
            final(self).cell == old(self).cell,
    {
        self.hovered.tick();
        self.primary.tick();
        self.secondary.tick();
        let mut kept: Vec<KeyState> = Vec::new();
        let mut i: usize = 0;
        while i < self.keys.len()
            invariant
                i <= self.keys.len(),
                self.keys@ == old(self).keys@,
                kept@ == spec_tick_keys(self.keys@.take(i as int)),
            decreases self.keys.len() - i,
        {
            assert(self.keys@.take(i + 1).drop_last() =~= self.keys@.take(i as int));
            let mut k = self.keys[i].clone();
            k.state.tick();
            if k.state != BoolState::default() {
                kept.push(k);
            }
            i = i + 1;
        }
        assert(self.keys@.take(self.keys.len() as int) =~= self.keys@);
        self.keys = kept;
    }

    /// The state of the first key whose `key` value is `key`, or the inactive state.
    pub fn get_key(&self, key: &str) -> (r: BoolState)
        ensures
            r == spec_find_key(self.keys@, key@, false),
    {
        Self::find_key(&self.keys, key, false)
    }

    /// The state of the first key whose key code is `key_code`, or the inactive state.
    pub fn get_key_code(&self, key_code: &str) -> (r: BoolState)
        ensures
            r == spec_find_key(self.keys@, key_code@, true),
    {
        Self::find_key(&self.keys, key_code, true)
    }

    fn find_key(keys: &Vec<KeyState>, name: &str, by_code: bool) -> (r: BoolState)
        ensures
            r == spec_find_key(keys@, name@, by_code),
    {
        let mut i: usize = 0;
        assert(keys@.skip(0) =~= keys@);
        while i < keys.len()
            invariant
                i <= keys.len(),
                spec_find_key(keys@, name@, by_code) == spec_find_key(keys@.skip(i as int), name@, by_code),
            decreases keys.len() - i,
        {
            let k = &keys[i];
            let hit = if by_code { string_eq_str(&k.key_code, name) } else { string_eq_str(&k.key, name) };
            assert(keys@.skip(i as int)[0] == keys@[i as int]);
            if hit {
                return k.state;
            }
            assert(keys@.skip(i as int).drop_first() =~= keys@.skip(i + 1));
            i = i + 1;
        }
        BoolState::default()
    }

    /// The keys without `code`, in their order.
    fn without_code(keys: &Vec<KeyState>, code: &String) -> (r: Vec<KeyState>)
        ensures
            r@ == spec_without_code(keys@, code@),
    {
        let mut kept: Vec<KeyState> = Vec::new();
        let mut i: usize = 0;
        while i < keys.len()
            invariant
                i <= keys.len(),
                kept@ == spec_without_code(keys@.take(i as int), code@),
            decreases keys.len() - i,
        {
            assert(keys@.take(i + 1).drop_last() =~= keys@.take(i as int));
            if keys[i].key_code != *code {
                kept.push(keys[i].clone());
            }
            i = i + 1;
        }
        assert(keys@.take(keys.len() as int) =~= keys@);
        kept
    }

    fn key_event(&mut self, key: String, code: String, down: bool)
        ensures
            final(self).keys@ == spec_tick_keys(spec_without_code(old(self).keys@, code@)).push(
                spec_key_event(old(self).keys@, key, code, down),
            ),
            final(self).hovered == old(self).hovered.spec_tick(),
            final(self).primary == old(self).primary.spec_tick(),
            final(self).secondary == old(self).secondary.spec_tick(),
            final(self).drag == old(self).drag,
            final(self).cell == old(self).cell,
    {
        let state = self.get_key_code(code.as_str()).transition(down);
        self.keys = Self::without_code(&self.keys, &code);
        self.tick();
        self.keys.push(KeyState { key_code: code, key, state });
    }

    /// A key went down: its state transitions to held, other keys tick, and the key moves to the
    /// end of the key list.
    pub fn event_key_down(&mut self, key: String, code: String)
        ensures
            final(self).keys@ == spec_tick_keys(spec_without_code(old(self).keys@, code@)).push(
                spec_key_event(old(self).keys@, key, code, true),
            ),
            final(self).hovered == old(self).hovered.spec_tick(),
            final(self).primary == old(self).primary.spec_tick(),
            final(self).secondary == old(self).secondary.spec_tick(),
            final(self).drag == old(self).drag,
            final(self).cell == old(self).cell,
    {
        self.key_event(key, code, true)
    }

    /// A key went up: its state transitions to released, other keys tick, and the key moves to
    /// the end of the key list.
    pub fn event_key_up(&mut self, key: String, code: String)
        ensures
            final(self).keys@ == spec_tick_keys(spec_without_code(old(self).keys@, code@)).push(
                spec_key_event(old(self).keys@, key, code, false),
            ),
            final(self).hovered == old(self).hovered.spec_tick(),
            final(self).primary == old(self).primary.spec_tick(),
            final(self).secondary == old(self).secondary.spec_tick(),
            final(self).drag == old(self).drag,
            final(self).cell == old(self).cell,
    {
        self.key_event(key, code, false)
    }

    /// A mouse event with the button mask `buttons` (bit 0 primary, bit 1 secondary) over the cell
    /// `new_cell`: the buttons transition, a click starts a drag, releasing both ends it, and the
    /// first move away from the drag's start fixes its initial direction.
    pub fn event_mouse(&mut self, buttons: u16, new_cell: CellCoord)
        ensures
            final(self).primary == old(self).primary.spec_transition(buttons & 1 != 0),
            final(self).secondary == old(self).secondary.spec_transition(buttons & 2 != 0),
            final(self).hovered == old(self).hovered.spec_tick(),
            final(self).keys@ == spec_tick_keys(old(self).keys@),
            final(self).cell == new_cell,
            final(self).drag == spec_drag_after(
                old(self).drag,
                old(self).cell,
                new_cell,
                old(self).primary.spec_transition(buttons & 1 != 0),
                old(self).secondary.spec_transition(buttons & 2 != 0),
            ),
    {
        let primary = self.primary.transition(buttons & 1 != 0);
        let secondary = self.secondary.transition(buttons & 2 != 0);
        self.tick();
        if (primary.clicked || secondary.clicked) && self.drag.is_none() {
            self.drag = Some(Drag { start: new_cell, initial_impulse_vertical: false });
        }
        if !primary.down && !secondary.down {
            self.drag = None;
        }
        match self.drag {
            Some(d) => {
                if self.cell == d.start && new_cell != d.start {
                    let dx: i64 = new_cell.0.x as i64 - d.start.0.x as i64;
                    let dy: i64 = new_cell.0.y as i64 - d.start.0.y as i64;
                    let ax: i64 = if dx < 0 { -dx } else { dx };
                    let ay: i64 = if dy < 0 { -dy } else { dy };
                    self.drag = Some(Drag { start: d.start, initial_impulse_vertical: ax < ay });
                }
            },
            None => {},
        }
        self.primary = primary;
        self.secondary = secondary;
        self.cell = new_cell;
    }

    /// The pointer entered (`true`) or left the canvas.
    pub fn event_mouse_presence(&mut self, presence: bool)
        ensures
            final(self).hovered == old(self).hovered.spec_transition(presence),
            final(self).primary == old(self).primary.spec_tick(),
            final(self).secondary == old(self).secondary.spec_tick(),
            final(self).keys@ == spec_tick_keys(old(self).keys@),
            final(self).drag == old(self).drag,
            final(self).cell == old(self).cell,
    {
        let hovered = self.hovered.transition(presence);
        self.tick();
        self.hovered = hovered;
    }

    /// The cells of the current drag from its start to the pointer's cell; just the pointer's
    /// cell when there is no drag.
    pub fn get_drag_path(&self) -> (r: Vec<CellCoord>)
        ensures
            r@ == (match self.drag {
                Some(d) => spec_drag_path(d.start.0, self.cell.0, d.initial_impulse_vertical),
                None => seq![self.cell],
            }),
    {
        match self.drag {
            Some(d) => drag_path(d.start.0, self.cell.0, d.initial_impulse_vertical),
            None => {
                let mut steps: Vec<CellCoord> = Vec::new();
                steps.push(self.cell);
                steps
            },
        }
    }
}

/// The cells a drag from `start` to `end` paints (see `spec_drag_path`).
pub fn drag_path(start: IVec2, end: IVec2, vertical: bool) -> (r: Vec<CellCoord>)
    ensures
        r@ == spec_drag_path(start, end, vertical),
{
    let mut steps: Vec<CellCoord> = Vec::new();
    let (first, second) = if vertical {
        (range_iter(start.y, end.y), range_iter(start.x, end.x))
    } else {
        (range_iter(start.x, end.x), range_iter(start.y, end.y))
    };
    let mut i: usize = 0;
    while i < first.len()
        invariant
            i <= first.len(),
            steps@ =~= first@.take(i as int).map_values(|v: i32| if vertical {
                CellCoord(IVec2 { x: start.x, y: v })
            } else {
                CellCoord(IVec2 { x: v, y: start.y })
            }),
        decreases first.len() - i,
    {
        let v = first[i];
        if vertical {
            steps.push(CellCoord(IVec2 { x: start.x, y: v }));
        } else {
            steps.push(CellCoord(IVec2 { x: v, y: start.y }));
        }
        i = i + 1;
    }
    let ghost mid = steps@;
    assert(first@.take(first.len() as int) =~= first@);
    let mut j: usize = 0;
    while j < second.len()
        invariant
            j <= second.len(),
            steps@ =~= mid + second@.take(j as int).map_values(|v: i32| if vertical {
                CellCoord(IVec2 { x: v, y: end.y })
            } else {
                CellCoord(IVec2 { x: end.x, y: v })
            }),
        decreases second.len() - j,
    {
        let v = second[j];
        if vertical {
            steps.push(CellCoord(IVec2 { x: v, y: end.y }));
        } else {
            steps.push(CellCoord(IVec2 { x: end.x, y: v }));
        }
        j = j + 1;
    }
    assert(second@.take(second.len() as int) =~= second@);
    steps.push(CellCoord(end));
    steps
}

/// A drag moves along its first axis first: a vertical drag keeps the start's column for its
/// first `|dy| + 1` cells and the end's row from there on; a horizontal drag keeps the start's
/// row for its first `|dx| + 1` cells and the end's column from there on.
pub proof fn lemma_drag_path_first_axis(start: IVec2, end: IVec2, vertical: bool, i: int)
    requires
        0 <= i < spec_drag_path(start, end, vertical).len(),
    ensures
        vertical && i <= abs(end.y - start.y) ==> spec_drag_path(start, end, vertical)[i].0.x == start.x,
        vertical && i >= abs(end.y - start.y) ==> spec_drag_path(start, end, vertical)[i].0.y == end.y,
        !vertical && i <= abs(end.x - start.x) ==> spec_drag_path(start, end, vertical)[i].0.y == start.y,
        !vertical && i >= abs(end.x - start.x) ==> spec_drag_path(start, end, vertical)[i].0.x == end.x,
{
    let p = spec_drag_path(start, end, vertical);
    lemma_range(start.x, end.x);
    lemma_range(start.y, end.y);
    let rx = spec_range(start.x, end.x);
    let ry = spec_range(start.y, end.y);
    if vertical {
        let a = ry.map_values(|y: i32| CellCoord(IVec2 { x: start.x, y }));
        let b = rx.map_values(|x: i32| CellCoord(IVec2 { x, y: end.y }));
        assert(p == a + b + seq![CellCoord(end)]);
        if i < a.len() {
            assert(p[i] == a[i]);
        } else if i < a.len() + b.len() {
            assert(p[i] == b[i - a.len()]);
            if i == a.len() {
                assert(b[0] == CellCoord(IVec2 { x: rx[0], y: end.y }));
                assert(rx[0] == start.x);
            }
        } else {
            assert(p[i] == CellCoord(end));
        }
    } else {
        let a = rx.map_values(|x: i32| CellCoord(IVec2 { x, y: start.y }));
        let b = ry.map_values(|y: i32| CellCoord(IVec2 { x: end.x, y }));
        assert(p == a + b + seq![CellCoord(end)]);
        if i < a.len() {
            assert(p[i] == a[i]);
        } else if i < a.len() + b.len() {
            assert(p[i] == b[i - a.len()]);
            if i == a.len() {
                assert(b[0] == CellCoord(IVec2 { x: end.x, y: ry[0] }));
                assert(ry[0] == start.y);
            }
        } else {
            assert(p[i] == CellCoord(end));
        }
    }
}

} // verus!
