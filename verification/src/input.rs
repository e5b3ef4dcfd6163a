//! Input state: which buttons are held, for how long, and which key bindings
//! are active.
//!
//! Buttons are keys, mouse buttons and pen buttons. Each button that has been
//! seen has a state: up or down, with a count of how often that state was
//! confirmed. Counts stop at `i32::MAX`. Events arrive as plain values; the
//! pen and the left mouse button share one button, which counts as pressed
//! only while the pen is down.

use crate::model::{Scalar, Vector2};
use crate::screen::{ScreenKey, ScreenManager};
use crate::table::ResourceTable;
use std::collections::HashMap;
use std::collections::VecDeque;
use vstd::prelude::*;

verus! {

broadcast use vstd::std_specs::hash::group_hash_axioms;

/// A mouse button.
#[derive(Clone, Copy, PartialEq, Eq, Structural, Debug, Hash)]
pub enum MouseButton {
    Unknown,
    Left,
    Middle,
    Right,
    X1,
    X2,
}

impl MouseButton {
    /// The number of a mouse button.
    pub open spec fn spec_index(self) -> u64 {
        match self {
            MouseButton::Unknown => 0,
            MouseButton::Left => 1,
            MouseButton::Middle => 2,
            MouseButton::Right => 3,
            MouseButton::X1 => 4,
            MouseButton::X2 => 5,
        }
    }

    pub fn index(&self) -> (index: u64)
        ensures
            index == self.spec_index(),
    {
        match self {
            MouseButton::Unknown => 0,
            MouseButton::Left => 1,
            MouseButton::Middle => 2,
            MouseButton::Right => 3,
            MouseButton::X1 => 4,
            MouseButton::X2 => 5,
        }
    }
}

/// Something that can be held down: a key, by its key code, a mouse button,
/// or a button of the pen, by its number.
#[derive(Clone, Copy, PartialEq, Eq, Structural, Debug, Hash)]
pub enum Button {
    Key(u32),
    Mouse(MouseButton),
    Pen(u8),
}

impl Button {
    /// The number under which a button's state is kept. No two buttons share one.
    pub open spec fn spec_code(self) -> u64 {
        match self {
            Button::Key(code) => code as u64,
            Button::Mouse(button) => (0x1_0000_0000 + button.spec_index()) as u64,
            Button::Pen(number) => (0x2_0000_0000 + number) as u64,
        }
    }

    pub fn code(&self) -> (code: u64)
        ensures
            code == self.spec_code(),
    {
        match self {
            Button::Key(code) => *code as u64,
            Button::Mouse(button) => 0x1_0000_0000 + button.index(),
            Button::Pen(number) => 0x2_0000_0000 + *number as u64,
        }
    }

    /// Different buttons have different codes.
    pub proof fn lemma_code_injective(a: Button, b: Button)
        requires
            a.spec_code() == b.spec_code(),
        ensures
            a == b,
    {
    }
}

/// The state of a button: up or down, and how often that state has been
/// confirmed since the button came into it.
#[derive(Clone, Copy, PartialEq, Eq, Structural, Debug)]
pub enum ButtonState {
    Up(i32),
    Down(i32),
}

/// One more than `frames`, or `frames` itself at the top of its range.
pub open spec fn bump(frames: i32) -> i32 {
    if frames < i32::MAX {
        (frames + 1) as i32
    } else {
        frames
    }
}

impl ButtonState {
    /// The count of a state.
    pub open spec fn spec_frames(self) -> i32 {
        match self {
            ButtonState::Up(frames) => frames,
            ButtonState::Down(frames) => frames,
        }
    }

    /// The state of a button that first shows as `pressed`.
    pub open spec fn spec_first(pressed: bool) -> ButtonState {
        if pressed {
            ButtonState::Down(0)
        } else {
            ButtonState::Up(0)
        }
    }

    /// The state that follows this one when the button shows as `pressed`:
    /// the same state with its count raised if the button has not changed,
    /// the other state with a count of zero if it has.
    pub open spec fn spec_step(self, pressed: bool) -> ButtonState {
        match self {
            ButtonState::Down(frames) => if pressed {
                ButtonState::Down(bump(frames))
            } else {
                ButtonState::Up(0)
            },
            ButtonState::Up(frames) => if pressed {
                ButtonState::Down(0)
            } else {
                ButtonState::Up(bump(frames))
            },
        }
    }

    pub fn frames(&self) -> (frames: i32)
        ensures
            frames == self.spec_frames(),
    {
        match self {
            ButtonState::Up(frames) => *frames,
            ButtonState::Down(frames) => *frames,
        }
    }

    pub fn first(pressed: bool) -> (state: ButtonState)
        ensures
            state == ButtonState::spec_first(pressed),
    {
        if pressed {
            ButtonState::Down(0)
        } else {
            ButtonState::Up(0)
        }
    }

    pub fn step(&self, pressed: bool) -> (state: ButtonState)
        ensures
            state == self.spec_step(pressed),
    {
        match self {
            ButtonState::Down(frames) => if pressed {
                ButtonState::Down(if *frames < i32::MAX { *frames + 1 } else { *frames })
            } else {
                ButtonState::Up(0)
            },
            ButtonState::Up(frames) => if pressed {
                ButtonState::Down(0)
            } else {
                ButtonState::Up(if *frames < i32::MAX { *frames + 1 } else { *frames })
            },
        }
    }
}

/// An axis of the pen.
#[derive(Clone, Copy, PartialEq, Eq, Structural, Debug)]
pub enum PenAxis {
    Pressure,
    XTilt,
    YTilt,
    Distance,
    Rotation,
    Slider,
    TangentialPressure,
    Unknown,
    Count,
}

/// What is known of the pen.
#[derive(Clone, Copy, PartialEq, Eq, Structural, Debug)]
pub struct PenState {
    /// 0.0 to 1.0.
    pub pressure: Scalar,
    /// -90.0 to 90.0: left to right, top to bottom.
    pub tilt: Vector2,
    /// 0.0 to 1.0: how far the pen is from the tablet.
    pub distance: Scalar,
    /// -180.0 to 179.9, clockwise: rotation of the barrel.
    pub rotation: Scalar,
    /// 0.0 to 1.0: finger wheel or slider.
    pub slider: Scalar,
    /// 0.0 to 1.0: pressure on the barrel.
    pub tangential_pressure: Scalar,
    pub proximity: bool,
    pub is_down: bool,
}

impl PenState {
    /// The pen at rest: every axis at zero, away from the tablet, not down.
    pub open spec fn rest() -> PenState {
        PenState {
            pressure: Scalar { bits: 0 },
            tilt: Vector2 { x: Scalar { bits: 0 }, y: Scalar { bits: 0 } },
            distance: Scalar { bits: 0 },
            rotation: Scalar { bits: 0 },
            slider: Scalar { bits: 0 },
            tangential_pressure: Scalar { bits: 0 },
            proximity: false,
            is_down: false,
        }
    }

    /// The pen with one axis set.
    pub open spec fn with_axis(self, axis: PenAxis, value: Scalar) -> PenState {
        match axis {
            PenAxis::Pressure => PenState { pressure: value, ..self },
            PenAxis::XTilt => PenState { tilt: Vector2 { x: value, y: self.tilt.y }, ..self },
            PenAxis::YTilt => PenState { tilt: Vector2 { x: self.tilt.x, y: value }, ..self },
            PenAxis::Distance => PenState { distance: value, ..self },
            PenAxis::Rotation => PenState { rotation: value, ..self },
            PenAxis::Slider => PenState { slider: value, ..self },
            PenAxis::TangentialPressure => PenState { tangential_pressure: value, ..self },
            PenAxis::Unknown => self,
            PenAxis::Count => self,
        }
    }
}

impl Default for PenState {
    fn default() -> (pen: PenState)
        ensures
            pen == PenState::rest(),
    {
        PenState {
            pressure: Scalar { bits: 0 },
            tilt: Vector2 { x: Scalar { bits: 0 }, y: Scalar { bits: 0 } },
            distance: Scalar { bits: 0 },
            rotation: Scalar { bits: 0 },
            slider: Scalar { bits: 0 },
            tangential_pressure: Scalar { bits: 0 },
            proximity: false,
            is_down: false,
        }
    }
}

/// An input event.
#[derive(Clone, Copy, PartialEq, Eq, Structural, Debug)]
pub enum InputEvent {
    KeyDown { keycode: Option<u32> },
    KeyUp { keycode: Option<u32> },
    MouseButtonDown { mouse_btn: MouseButton },
    MouseButtonUp { mouse_btn: MouseButton },
    PenDown,
    PenUp,
    PenButtonDown { button: u8 },
    PenButtonUp { button: u8 },
    MouseMotion { x: Scalar, y: Scalar },
    MouseWheel { x: Scalar, y: Scalar },
    PenMotion { x: Scalar, y: Scalar },
    PenAxis { axis: PenAxis, value: Scalar },
    PenProximityIn,
    PenProximityOut,
    /// Any event that input takes no notice of.
    Other,
}

#[derive(Clone, Copy, PartialEq, Eq, Structural, Debug, Hash)]
pub struct KeybindKey {
    pub raw: u64,
}

/// A key binding: groups of buttons to be pressed one group after the other,
/// and buttons that must not be held meanwhile.
#[derive(PartialEq, Eq, Debug)]
pub struct Keybind {
    /// The groups, in the order in which they are to be pressed. A group is
    /// held when one of its buttons is down.
    pub button_groups: Vec<Vec<Button>>,
    /// Buttons that keep the binding from being active while one is down.
    pub exclusive_buttons: Vec<Button>,
    /// The screen that the binding belongs to, if it belongs to one.
    pub attatched_screen: Option<ScreenKey>,
    pub state: ButtonState,
}

/// Whether `button` is down.
pub open spec fn down_in(states: Map<Button, ButtonState>, button: Button) -> bool {
    states.contains_key(button) && states[button] is Down
}

/// Whether some button of `group` is down.
pub open spec fn any_down(states: Map<Button, ButtonState>, group: Seq<Button>) -> bool {
    exists|i: int| 0 <= i < group.len() && down_in(states, #[trigger] group[i])
}

/// `frames` is the count of a button of `group` that is down, and no button
/// of the group that is down has a lower one.
pub open spec fn least_down(states: Map<Button, ButtonState>, group: Seq<Button>, frames: i32) -> bool {
    &&& exists|i: int|
        0 <= i < group.len() && down_in(states, #[trigger] group[i]) && states[group[i]].spec_frames()
            == frames
    &&& forall|i: int|
        0 <= i < group.len() && down_in(states, #[trigger] group[i]) ==> frames
            <= states[group[i]].spec_frames()
}

/// `frames` is the count of a button of `group` that is down, and no button
/// of the group that is down has a higher one.
pub open spec fn greatest_down(
    states: Map<Button, ButtonState>,
    group: Seq<Button>,
    frames: i32,
) -> bool {
    &&& exists|i: int|
        0 <= i < group.len() && down_in(states, #[trigger] group[i]) && states[group[i]].spec_frames()
            == frames
    &&& forall|i: int|
        0 <= i < group.len() && down_in(states, #[trigger] group[i]) ==> frames
            >= states[group[i]].spec_frames()
}

/// Whether group `i` of `groups` is held, and was pressed no later than the
/// group after it: no button of the next group has been down longer than
/// the button of this group that has been down for the shortest time.
pub open spec fn group_in_order(
    states: Map<Button, ButtonState>,
    groups: Seq<Vec<Button>>,
    i: int,
) -> bool {
    &&& any_down(states, groups[i]@)
    &&& i + 1 < groups.len() ==> forall|least: i32, greatest: i32|
        #![trigger least_down(states, groups[i]@, least), greatest_down(states, groups[i + 1]@, greatest)]
        least_down(states, groups[i]@, least) && greatest_down(states, groups[i + 1]@, greatest)
            ==> least >= greatest
}

/// Whether a binding is active: it belongs to no screen, none of its
/// exclusive buttons is down, and its groups are held, pressed in order.
pub open spec fn keybind_active(states: Map<Button, ButtonState>, keybind: Keybind) -> bool {
    &&& keybind.attatched_screen is None
    &&& !any_down(states, keybind.exclusive_buttons@)
    &&& forall|i: int|
        0 <= i < keybind.button_groups@.len() ==> #[trigger] group_in_order(
            states,
            keybind.button_groups@,
            i,
        )
}

impl Keybind {
    /// The binding after one update with the buttons in `states`.
    pub open spec fn advanced(self, states: Map<Button, ButtonState>) -> Keybind {
        Keybind { state: self.state.spec_step(keybind_active(states, self)), ..self }
    }
}

/// How many mouse positions are remembered.
pub const MOUSE_HISTORY: usize = 10;

/// An [`InputManager`] as a mathematical value.
pub struct InputView {
    pub keybinds: Map<u64, Keybind>,
    pub button_states: Map<Button, ButtonState>,
    /// The latest positions of the mouse, the latest first.
    pub mouse_pos_history: Seq<(Scalar, Scalar)>,
    pub scroll: (Scalar, Scalar),
    pub pen: PenState,
    pub physical_left_button_down: bool,
}

impl InputView {
    /// The state after `button` showed as `pressed`. The left mouse button
    /// counts as pressed only while the pen is down.
    pub open spec fn with_button(self, button: Button, pressed: bool) -> InputView {
        let counted = if button == Button::Mouse(MouseButton::Left) {
            pressed && self.pen.is_down
        } else {
            pressed
        };
        let state = if self.button_states.contains_key(button) {
            self.button_states[button].spec_step(counted)
        } else {
            ButtonState::spec_first(counted)
        };
        InputView { button_states: self.button_states.insert(button, state), ..self }
    }

    /// The state after an event that presses or releases a button. Any other
    /// event, and a key event without a key code, changes nothing.
    pub open spec fn after_button(self, event: InputEvent) -> InputView {
        match event {
            InputEvent::KeyDown { keycode: Some(key) } => self.with_button(Button::Key(key), true),
            InputEvent::KeyUp { keycode: Some(key) } => self.with_button(Button::Key(key), false),
            InputEvent::MouseButtonDown { mouse_btn: MouseButton::Left } => (InputView {
                physical_left_button_down: true,
                ..self
            }).with_button(Button::Mouse(MouseButton::Left), true),
            InputEvent::MouseButtonUp { mouse_btn: MouseButton::Left } => (InputView {
                physical_left_button_down: false,
                ..self
            }).with_button(Button::Mouse(MouseButton::Left), self.pen.is_down),
            InputEvent::MouseButtonDown { mouse_btn } => self.with_button(
                Button::Mouse(mouse_btn),
                true,
            ),
            InputEvent::MouseButtonUp { mouse_btn } => self.with_button(
                Button::Mouse(mouse_btn),
                false,
            ),
            InputEvent::PenDown => (InputView {
                pen: PenState { is_down: true, ..self.pen },
                ..self
            }).with_button(Button::Mouse(MouseButton::Left), true),
            InputEvent::PenUp => (InputView {
                pen: PenState { proximity: self.pen.proximity, ..PenState::rest() },
                ..self
            }).with_button(Button::Mouse(MouseButton::Left), self.physical_left_button_down),
            InputEvent::PenButtonDown { button } => self.with_button(Button::Pen(button), true),
            InputEvent::PenButtonUp { button } => self.with_button(Button::Pen(button), false),
            _ => self,
        }
    }

    /// The state after the mouse moved to a position: the position is the
    /// first of the history, which keeps the latest positions only.
    pub open spec fn with_mouse_at(self, x: Scalar, y: Scalar) -> InputView {
        let longer = seq![(x, y)] + self.mouse_pos_history;
        InputView {
            mouse_pos_history: if longer.len() > MOUSE_HISTORY {
                longer.drop_last()
            } else {
                longer
            },
            ..self
        }
    }

    /// The state after an event.
    pub open spec fn after(self, event: InputEvent) -> InputView {
        match event {
            InputEvent::MouseMotion { x, y } => self.with_mouse_at(x, y),
            InputEvent::MouseWheel { x, y } => InputView { scroll: (x, y), ..self },
            InputEvent::PenMotion { x, y } => self,
            InputEvent::PenAxis { axis, value } => InputView {
                pen: self.pen.with_axis(axis, value),
                ..self
            },
            InputEvent::PenProximityIn => InputView {
                pen: PenState { proximity: true, ..self.pen },
                ..self
            },
            InputEvent::PenProximityOut => InputView {
                pen: PenState { proximity: false, ..self.pen },
                ..self
            },
            InputEvent::Other => self,
            _ => self.after_button(event),
        }
    }

    /// The state after a reset: no button seen, no mouse position, the pen
    /// at rest. The bindings stay.
    pub open spec fn reset(self) -> InputView {
        InputView {
            keybinds: self.keybinds,
            button_states: Map::empty(),
            mouse_pos_history: Seq::empty(),
            scroll: (Scalar { bits: 0 }, Scalar { bits: 0 }),
            pen: PenState::rest(),
            physical_left_button_down: false,
        }
    }

    /// The state after an update: every binding has advanced by one step.
    pub open spec fn updated(self) -> InputView {
        InputView {
            keybinds: Map::new(
                |handle: u64| self.keybinds.contains_key(handle),
                |handle: u64| self.keybinds[handle].advanced(self.button_states),
            ),
            ..self
        }
    }

    /// What holds of every input state: the history is within its limit.
    pub open spec fn valid(self) -> bool {
        self.mouse_pos_history.len() <= MOUSE_HISTORY
    }
}

/// Button states kept by code, as a map from buttons.
pub open spec fn states_view(states: Map<u64, ButtonState>) -> Map<Button, ButtonState> {
    Map::new(
        |button: Button| states.contains_key(button.spec_code()),
        |button: Button| states[button.spec_code()],
    )
}

/// The count of the button of `group` that has been down for the shortest time.
fn least_down_of(states: &HashMap<u64, ButtonState>, group: &Vec<Button>) -> (least: Option<i32>)
    ensures
        match least {
            Some(frames) => least_down(states_view(states@), group@, frames),
            None => !any_down(states_view(states@), group@),
        },
{
    let ghost view = states_view(states@);
    let mut least: Option<i32> = None;
    let mut i: usize = 0;
    while i < group.len()
        invariant
            i <= group@.len(),
            view == states_view(states@),
            match least {
                Some(frames) => {
                    &&& exists|k: int|
                        0 <= k < i && down_in(view, #[trigger] group@[k])
                            && view[group@[k]].spec_frames() == frames
                    &&& forall|k: int|
                        0 <= k < i && down_in(view, #[trigger] group@[k]) ==> frames
                            <= view[group@[k]].spec_frames()
                },
                None => forall|k: int| 0 <= k < i ==> !down_in(view, #[trigger] group@[k]),
            },
        decreases group@.len() - i,
    {
        let code = group[i].code();
        match states.get(&code) {
            Some(ButtonState::Down(frames)) => {
                assert(down_in(view, group@[i as int]));
                assert(view[group@[i as int]].spec_frames() == *frames);
                match least {
                    Some(current) => {
                        if *frames < current {
                            least = Some(*frames);
                        }
                    },
                    None => {
                        least = Some(*frames);
                    },
                }
            },
            _ => {
                assert(!down_in(view, group@[i as int]));
            },
        }
        i += 1;
    }
    least
}

/// The count of the button of `group` that has been down for the longest time.
fn greatest_down_of(states: &HashMap<u64, ButtonState>, group: &Vec<Button>) -> (greatest: Option<
    i32,
>)
    ensures
        match greatest {
            Some(frames) => greatest_down(states_view(states@), group@, frames),
            None => !any_down(states_view(states@), group@),
        },
{
    let ghost view = states_view(states@);
    let mut greatest: Option<i32> = None;
    let mut i: usize = 0;
    while i < group.len()
        invariant
            i <= group@.len(),
            view == states_view(states@),
            match greatest {
                Some(frames) => {
                    &&& exists|k: int|
                        0 <= k < i && down_in(view, #[trigger] group@[k])
                            && view[group@[k]].spec_frames() == frames
                    &&& forall|k: int|
                        0 <= k < i && down_in(view, #[trigger] group@[k]) ==> frames
                            >= view[group@[k]].spec_frames()
                },
                None => forall|k: int| 0 <= k < i ==> !down_in(view, #[trigger] group@[k]),
            },
        decreases group@.len() - i,
    {
        let code = group[i].code();
        match states.get(&code) {
            Some(ButtonState::Down(frames)) => {
                assert(down_in(view, group@[i as int]));
                assert(view[group@[i as int]].spec_frames() == *frames);
                match greatest {
                    Some(current) => {
                        if *frames > current {
                            greatest = Some(*frames);
                        }
                    },
                    None => {
                        greatest = Some(*frames);
                    },
                }
            },
            _ => {
                assert(!down_in(view, group@[i as int]));
            },
        }
        i += 1;
    }
    greatest
}

/// Whether a binding is active with the buttons in `states`.
fn is_active(states: &HashMap<u64, ButtonState>, keybind: &Keybind) -> (active: bool)
    ensures
        active == keybind_active(states_view(states@), *keybind),
{
    let ghost view = states_view(states@);
    if keybind.attatched_screen.is_some() {
        return false;
    }
    if least_down_of(states, &keybind.exclusive_buttons).is_some() {
        return false;
    }
    let mut i: usize = 0;
    while i < keybind.button_groups.len()
        invariant
            i <= keybind.button_groups@.len(),
            view == states_view(states@),
            forall|k: int|
                0 <= k < i ==> #[trigger] group_in_order(view, keybind.button_groups@, k),
        decreases keybind.button_groups@.len() - i,
    {
        let least = match least_down_of(states, &keybind.button_groups[i]) {
            Some(frames) => frames,
            None => {
                assert(!group_in_order(view, keybind.button_groups@, i as int));
                return false;
            },
        };
        if i + 1 < keybind.button_groups.len() {
            match greatest_down_of(states, &keybind.button_groups[i + 1]) {
                Some(greatest) => {
                    if least < greatest {
                        assert(!group_in_order(view, keybind.button_groups@, i as int));
                        return false;
                    }
                    assert forall|a: i32, b: i32|
                        #![trigger least_down(view, keybind.button_groups@[i as int]@, a), greatest_down(view, keybind.button_groups@[i + 1]@, b)]
                        least_down(view, keybind.button_groups@[i as int]@, a) && greatest_down(
                            view,
                            keybind.button_groups@[i + 1]@,
                            b,
                        ) implies a >= b by {
                        assert(a <= least && least <= a);
                        assert(b >= greatest && greatest >= b);
                    }
                },
                None => {},
            }
        }
        assert(group_in_order(view, keybind.button_groups@, i as int));
        i += 1;
    }
    true
}

/// The input of one window.
pub struct InputManager {
    keybinds: ResourceTable<Keybind>,
    button_states: HashMap<u64, ButtonState>,
    mouse_pos_history: VecDeque<(Scalar, Scalar)>,
    scroll: (Scalar, Scalar),
    pen: PenState,
    physical_left_button_down: bool,
}

impl View for InputManager {
    type V = InputView;

    closed spec fn view(&self) -> InputView {
        InputView {
            keybinds: self.keybinds@,
            button_states: states_view(self.button_states@),
            mouse_pos_history: self.mouse_pos_history@,
            scroll: self.scroll,
            pen: self.pen,
            physical_left_button_down: self.physical_left_button_down,
        }
    }
}

impl InputManager {
    /// The representation is sound and the view is valid.
    pub closed spec fn wf(&self) -> bool {
        &&& self.keybinds.wf()
        &&& self@.valid()
    }

    /// No bindings, no button seen, the pen at rest.
    pub fn new() -> (input: Self)
        ensures
            input.wf(),
            input@ == (InputView {
                keybinds: Map::empty(),
                button_states: Map::empty(),
                mouse_pos_history: Seq::empty(),
                scroll: (Scalar { bits: 0 }, Scalar { bits: 0 }),
                pen: PenState::rest(),
                physical_left_button_down: false,
            }),
    {
        let input = InputManager {
            keybinds: ResourceTable::new(),
            button_states: HashMap::new(),
            mouse_pos_history: VecDeque::new(),
            scroll: (Scalar { bits: 0 }, Scalar { bits: 0 }),
            pen: PenState::default(),
            physical_left_button_down: false,
        };
        assert(input@.button_states =~= Map::empty());
        input
    }

    /// Forgets every button, the mouse and the pen. The bindings stay.
    pub fn reset_states(&mut self)
        requires
            old(self).wf(),
        ensures
            final(self).wf(),
            final(self)@ == old(self)@.reset(),
    {
        self.button_states.clear();
        self.mouse_pos_history.clear();
        self.scroll = (Scalar { bits: 0 }, Scalar { bits: 0 });
        self.pen = PenState::default();
        self.physical_left_button_down = false;
        assert(self@.button_states =~= Map::empty());
    }

    /// Takes one event in.
    pub fn handle_event(&mut self, event: &InputEvent)
        requires
            old(self).wf(),
        ensures
            final(self).wf(),
            final(self)@ == old(self)@.after(*event),
    {
        match event {
            InputEvent::KeyDown { .. }
            | InputEvent::KeyUp { .. }
            | InputEvent::MouseButtonDown { .. }
            | InputEvent::MouseButtonUp { .. }
            | InputEvent::PenDown
            | InputEvent::PenUp
            | InputEvent::PenButtonDown { .. }
            | InputEvent::PenButtonUp { .. } => self.handle_button(event),
            InputEvent::MouseMotion { x, y } => {
                self.mouse_pos_history.push_front((*x, *y));
                if self.mouse_pos_history.len() > MOUSE_HISTORY {
                    self.mouse_pos_history.pop_back();
                }
                assert(self@.mouse_pos_history =~= old(self)@.with_mouse_at(
                    *x,
                    *y,
                ).mouse_pos_history);
            },
            InputEvent::MouseWheel { x, y } => {
                self.scroll = (*x, *y);
            },
            InputEvent::PenMotion { .. } => {},
            InputEvent::PenAxis { axis, value } => {
                match axis {
                    PenAxis::Pressure => {
                        self.pen.pressure = *value;
                    },
                    PenAxis::XTilt => {
                        self.pen.tilt.x = *value;
                    },
                    PenAxis::YTilt => {
                        self.pen.tilt.y = *value;
                    },
                    PenAxis::Distance => {
                        self.pen.distance = *value;
                    },
                    PenAxis::Rotation => {
                        self.pen.rotation = *value;
                    },
                    PenAxis::Slider => {
                        self.pen.slider = *value;
                    },
                    PenAxis::TangentialPressure => {
                        self.pen.tangential_pressure = *value;
                    },
                    PenAxis::Unknown => {},
                    PenAxis::Count => {},
                }
            },
            InputEvent::PenProximityIn => {
                self.pen.proximity = true;
            },
            InputEvent::PenProximityOut => {
                self.pen.proximity = false;
            },
            InputEvent::Other => {},
        }
    }

    /// Takes in an event that presses or releases a button.
    pub fn handle_button(&mut self, event: &InputEvent)
        requires
            old(self).wf(),
        ensures
            final(self).wf(),
            final(self)@ == old(self)@.after_button(*event),
    {
        let (button, pressed) = match event {
            InputEvent::KeyDown { keycode: Some(key) } => (Button::Key(*key), true),
            InputEvent::KeyUp { keycode: Some(key) } => (Button::Key(*key), false),
            InputEvent::MouseButtonDown { mouse_btn: MouseButton::Left } => {
                self.physical_left_button_down = true;
                (Button::Mouse(MouseButton::Left), true)
            },
            InputEvent::MouseButtonUp { mouse_btn: MouseButton::Left } => {
                self.physical_left_button_down = false;
                (Button::Mouse(MouseButton::Left), self.pen.is_down)
            },
            InputEvent::MouseButtonDown { mouse_btn } => (Button::Mouse(*mouse_btn), true),
            InputEvent::MouseButtonUp { mouse_btn } => (Button::Mouse(*mouse_btn), false),
            InputEvent::PenDown => {
                self.pen.is_down = true;
                (Button::Mouse(MouseButton::Left), true)
            },
            InputEvent::PenUp => {
                let mut pen = PenState::default();
                pen.proximity = self.pen.proximity;
                self.pen = pen;
                (Button::Mouse(MouseButton::Left), self.physical_left_button_down)
            },
            InputEvent::PenButtonDown { button } => (Button::Pen(*button), true),
            InputEvent::PenButtonUp { button } => (Button::Pen(*button), false),
            _ => {
                return ;
            },
        };
        let ghost before = self@;
        let counted = if button == Button::Mouse(MouseButton::Left) {
            pressed && self.pen.is_down
        } else {
            pressed
        };
        let code = button.code();
        let state = match self.button_states.get(&code) {
            Some(current) => current.step(counted),
            None => ButtonState::first(counted),
        };
        self.button_states.insert(code, state);
        proof {
            assert forall|other: Button| other.spec_code() == code implies other == button by {
                Button::lemma_code_injective(other, button);
            }
            assert(self@.button_states =~= before.button_states.insert(button, state));
            assert(self@ == before.with_button(button, pressed));
        }
    }

    /// Whether `button` is down.
    pub fn is_down(&self, button: &Button) -> (down: bool)
        ensures
            down == down_in(self@.button_states, *button),
    {
        match self.button_states.get(&button.code()) {
            Some(ButtonState::Down(_)) => true,
            _ => false,
        }
    }

    /// The count of `button`'s state; `i32::MAX` for a button never seen.
    pub fn frames(&self, button: &Button) -> (frames: i32)
        ensures
            frames == if self@.button_states.contains_key(*button) {
                self@.button_states[*button].spec_frames()
            } else {
                i32::MAX
            },
    {
        match self.button_states.get(&button.code()) {
            Some(state) => state.frames(),
            None => i32::MAX,
        }
    }

    /// Whether `button` went down with the latest event that concerned it.
    pub fn is_pressed(&self, button: &Button) -> (pressed: bool)
        ensures
            pressed == (self@.button_states.contains_key(*button) && self@.button_states[*button]
                == ButtonState::Down(0)),
    {
        match self.button_states.get(&button.code()) {
            Some(ButtonState::Down(frames)) => *frames == 0,
            _ => false,
        }
    }

    /// Whether `button` went up with the latest event that concerned it.
    pub fn is_released(&self, button: &Button) -> (released: bool)
        ensures
            released == (self@.button_states.contains_key(*button) && self@.button_states[*button]
                == ButtonState::Up(0)),
    {
        match self.button_states.get(&button.code()) {
            Some(ButtonState::Up(frames)) => *frames == 0,
            _ => false,
        }
    }

    /// The latest positions of the mouse, the latest first.
    pub fn mouse_pos_history(&self) -> (history: &VecDeque<(Scalar, Scalar)>)
        ensures
            history@ == self@.mouse_pos_history,
    {
        &self.mouse_pos_history
    }

    /// The latest movement of the wheel.
    pub fn scroll(&self) -> (scroll: (Scalar, Scalar))
        ensures
            scroll == self@.scroll,
    {
        self.scroll
    }

    /// What is known of the pen.
    pub fn pen(&self) -> (pen: PenState)
        ensures
            pen == self@.pen,
    {
        self.pen
    }

    /// Whether one more binding can be added.
    pub fn has_room(&self) -> (room: bool)
        ensures
            room == (self@.keybinds.len() < crate::slots::SLOT_LIMIT),
    {
        !self.keybinds.is_full()
    }

    /// Adds a binding and returns its handle.
    pub fn add_keybind(&mut self, keybind: Keybind) -> (key: KeybindKey)
        requires
            old(self).wf(),
            old(self)@.keybinds.len() < crate::slots::SLOT_LIMIT,
        ensures
            final(self).wf(),
            !old(self)@.keybinds.contains_key(key.raw),
            final(self)@ == (InputView {
                keybinds: old(self)@.keybinds.insert(key.raw, keybind),
                ..old(self)@
            }),
    {
        let handle = self.keybinds.insert(keybind);
        KeybindKey { raw: handle }
    }

    /// The state of the binding under `key`.
    pub fn keybind_state(&self, key: KeybindKey) -> (state: Option<ButtonState>)
        ensures
            match state {
                Some(s) => self@.keybinds.contains_key(key.raw) && s
                    == self@.keybinds[key.raw].state,
                None => !self@.keybinds.contains_key(key.raw),
            },
    {
        match self.keybinds.get(key.raw) {
            Some(keybind) => Some(keybind.state),
            None => None,
        }
    }

    /// Advances every binding by one step: a binding that is active goes or
    /// stays down, one that is not goes or stays up.
    pub fn update(&mut self, screens: &ScreenManager)
        requires
            old(self).wf(),
        ensures
            final(self).wf(),
            final(self)@ == old(self)@.updated(),
    {
        let ghost before = self@;
        let handles = self.keybinds.handles();
        let mut i: usize = 0;
        while i < handles.len()
            invariant
                i <= handles@.len(),
                self.keybinds.wf(),
                handles@.no_duplicates(),
                handles@.to_set() == before.keybinds.dom(),
                self@ == (InputView { keybinds: self@.keybinds, ..before }),
                self.button_states == old(self).button_states,
                before.button_states == states_view(self.button_states@),
                self@.keybinds.dom() == before.keybinds.dom(),
                forall|k: int|
                    0 <= k < i ==> self@.keybinds[#[trigger] handles@[k]]
                        == before.keybinds[handles@[k]].advanced(before.button_states),
                forall|k: int|
                    i <= k < handles@.len() ==> self@.keybinds[#[trigger] handles@[k]]
                        == before.keybinds[handles@[k]],
            decreases handles@.len() - i,
        {
            let handle = handles[i];
            let ghost entering = self@.keybinds;
            assert(handles@.to_set().contains(handles@[i as int]));
            let placeholder = Keybind {
                button_groups: Vec::new(),
                exclusive_buttons: Vec::new(),
                attatched_screen: None,
                state: ButtonState::Up(0),
            };
            match self.keybinds.replace(handle, placeholder) {
                Ok(keybind) => {
                    let mut keybind = keybind;
                    let active = is_active(&self.button_states, &keybind);
                    keybind.state = keybind.state.step(active);
                    let _ = self.keybinds.replace(handle, keybind);
                    proof {
                        assert(self@.keybinds =~= entering.insert(
                            handle,
                            before.keybinds[handle].advanced(before.button_states),
                        ));
                        assert forall|k: int| 0 <= k < handles@.len() && k != i implies handles@[k]
                            != handle by {
                            assert(handles@[k] != handles@[i as int]);
                        }
                    }
                },
                Err(_) => {
                    assert(false);
                },
            }
            i += 1;
        }
        proof {
            assert forall|handle: u64| before.keybinds.contains_key(handle) implies self@.keybinds[handle]
                == before.keybinds[handle].advanced(before.button_states) by {
                assert(handles@.to_set().contains(handle));
                let k = choose|k: int| 0 <= k < handles@.len() && handles@[k] == handle;
                assert(self@.keybinds[handles@[k]] == before.keybinds[handles@[k]].advanced(
                    before.button_states,
                ));
            }
            assert(self@.keybinds =~= before.updated().keybinds);
        }
    }
}

} // verus!
