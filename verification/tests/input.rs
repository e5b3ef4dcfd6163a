use sq::input::{
    Button, ButtonState, InputEvent, InputManager, Keybind, KeybindKey, MouseButton, PenAxis,
    PenState,
};
use sq::model::{Scalar, Vector2};
use sq::screen::{ScreenKey, ScreenManager};

const KEY_A: u32 = 97;
const KEY_S: u32 = 115;
const KEY_CTRL: u32 = 0x4000_00e0;
const KEY_SHIFT: u32 = 0x4000_00e1;

fn scalar(value: f32) -> Scalar {
    Scalar::from_bits(value.to_bits())
}

fn key_down(input: &mut InputManager, key: u32) {
    input.handle_event(&InputEvent::KeyDown { keycode: Some(key) });
}

fn key_up(input: &mut InputManager, key: u32) {
    input.handle_event(&InputEvent::KeyUp { keycode: Some(key) });
}

fn left() -> Button {
    Button::Mouse(MouseButton::Left)
}

fn binding(groups: Vec<Vec<Button>>, exclusive: Vec<Button>) -> Keybind {
    Keybind {
        button_groups: groups,
        exclusive_buttons: exclusive,
        attatched_screen: None,
        state: ButtonState::Up(0),
    }
}

#[test]
fn new_input_has_seen_nothing() {
    let input = InputManager::new();
    assert!(!input.is_down(&Button::Key(KEY_A)));
    assert!(!input.is_pressed(&Button::Key(KEY_A)));
    assert!(!input.is_released(&Button::Key(KEY_A)));
    assert_eq!(input.frames(&Button::Key(KEY_A)), i32::MAX);
    assert!(input.mouse_pos_history().is_empty());
    assert_eq!(input.scroll(), (scalar(0.0), scalar(0.0)));
    assert_eq!(input.pen(), PenState::default());
}

#[test]
fn the_pen_rests_at_zero() {
    let pen = PenState::default();
    assert_eq!(pen.pressure, scalar(0.0));
    assert_eq!(pen.tilt, Vector2 { x: scalar(0.0), y: scalar(0.0) });
    assert_eq!(pen.distance, scalar(0.0));
    assert_eq!(pen.rotation, scalar(0.0));
    assert_eq!(pen.slider, scalar(0.0));
    assert_eq!(pen.tangential_pressure, scalar(0.0));
    assert!(!pen.proximity);
    assert!(!pen.is_down);
}

#[test]
fn a_key_goes_down_and_up() {
    let mut input = InputManager::new();
    let a = Button::Key(KEY_A);
    key_down(&mut input, KEY_A);
    assert!(input.is_down(&a));
    assert!(input.is_pressed(&a));
    assert!(!input.is_released(&a));
    assert_eq!(input.frames(&a), 0);
    key_down(&mut input, KEY_A);
    assert!(input.is_down(&a));
    assert!(!input.is_pressed(&a));
    assert_eq!(input.frames(&a), 1);
    key_down(&mut input, KEY_A);
    assert_eq!(input.frames(&a), 2);
    key_up(&mut input, KEY_A);
    assert!(!input.is_down(&a));
    assert!(input.is_released(&a));
    assert_eq!(input.frames(&a), 0);
    key_up(&mut input, KEY_A);
    assert!(!input.is_released(&a));
    assert_eq!(input.frames(&a), 1);
    key_down(&mut input, KEY_A);
    assert!(input.is_pressed(&a));
}

#[test]
fn a_key_first_seen_going_up_is_up() {
    let mut input = InputManager::new();
    key_up(&mut input, KEY_A);
    assert!(!input.is_down(&Button::Key(KEY_A)));
    assert!(input.is_released(&Button::Key(KEY_A)));
    assert_eq!(input.frames(&Button::Key(KEY_A)), 0);
}

#[test]
fn keys_do_not_disturb_each_other() {
    let mut input = InputManager::new();
    key_down(&mut input, KEY_A);
    key_down(&mut input, KEY_S);
    key_down(&mut input, KEY_S);
    assert_eq!(input.frames(&Button::Key(KEY_A)), 0);
    assert_eq!(input.frames(&Button::Key(KEY_S)), 1);
    key_up(&mut input, KEY_A);
    assert!(input.is_down(&Button::Key(KEY_S)));
    assert!(!input.is_down(&Button::Key(KEY_A)));
}

#[test]
fn buttons_of_different_kinds_with_one_number_are_different_buttons() {
    let mut input = InputManager::new();
    key_down(&mut input, 1);
    assert!(input.is_down(&Button::Key(1)));
    assert!(!input.is_down(&Button::Pen(1)));
    assert!(!input.is_down(&left()));
    input.handle_event(&InputEvent::PenButtonDown { button: 1 });
    assert!(input.is_down(&Button::Pen(1)));
    key_up(&mut input, 1);
    assert!(input.is_down(&Button::Pen(1)));
    assert_ne!(Button::Key(1).code(), Button::Pen(1).code());
    assert_ne!(Button::Key(1).code(), left().code());
    assert_eq!(Button::Key(KEY_CTRL).code(), 0x4000_00e0);
    assert_eq!(left().code(), 0x1_0000_0001);
    assert_eq!(Button::Mouse(MouseButton::X2).code(), 0x1_0000_0005);
    assert_eq!(Button::Pen(255).code(), 0x2_0000_00ff);
    assert_eq!(Button::Key(u32::MAX).code(), 0xffff_ffff);
}

#[test]
fn a_key_event_without_a_key_changes_nothing() {
    let mut input = InputManager::new();
    input.handle_event(&InputEvent::KeyDown { keycode: None });
    input.handle_event(&InputEvent::KeyUp { keycode: None });
    assert_eq!(input.frames(&Button::Key(0)), i32::MAX);
}

#[test]
fn other_mouse_buttons_go_down_and_up() {
    let mut input = InputManager::new();
    let right = Button::Mouse(MouseButton::Right);
    input.handle_event(&InputEvent::MouseButtonDown { mouse_btn: MouseButton::Right });
    assert!(input.is_pressed(&right));
    input.handle_event(&InputEvent::MouseButtonUp { mouse_btn: MouseButton::Right });
    assert!(input.is_released(&right));
    assert_eq!(input.frames(&left()), i32::MAX);
}

#[test]
fn the_left_button_counts_only_while_the_pen_is_down() {
    let mut input = InputManager::new();
    input.handle_event(&InputEvent::MouseButtonDown { mouse_btn: MouseButton::Left });
    assert!(!input.is_down(&left()));
    assert!(input.is_released(&left()));
    input.handle_event(&InputEvent::PenDown);
    assert!(input.pen().is_down);
    assert!(input.is_pressed(&left()));
    input.handle_event(&InputEvent::MouseButtonDown { mouse_btn: MouseButton::Left });
    assert!(input.is_down(&left()));
    assert_eq!(input.frames(&left()), 1);
    input.handle_event(&InputEvent::MouseButtonUp { mouse_btn: MouseButton::Left });
    assert!(input.is_down(&left()));
    assert_eq!(input.frames(&left()), 2);
}

#[test]
fn lifting_the_pen_releases_the_left_button() {
    let mut input = InputManager::new();
    input.handle_event(&InputEvent::PenProximityIn);
    input.handle_event(&InputEvent::PenAxis { axis: PenAxis::Pressure, value: scalar(0.5) });
    input.handle_event(&InputEvent::MouseButtonDown { mouse_btn: MouseButton::Left });
    input.handle_event(&InputEvent::PenDown);
    assert!(input.is_down(&left()));
    input.handle_event(&InputEvent::PenUp);
    assert!(!input.is_down(&left()));
    assert!(input.is_released(&left()));
    let pen = input.pen();
    assert!(!pen.is_down);
    assert!(pen.proximity);
    assert_eq!(pen.pressure, scalar(0.0));
}

#[test]
fn pen_buttons_go_down_and_up() {
    let mut input = InputManager::new();
    input.handle_event(&InputEvent::PenButtonDown { button: 2 });
    assert!(input.is_pressed(&Button::Pen(2)));
    input.handle_event(&InputEvent::PenButtonUp { button: 2 });
    assert!(input.is_released(&Button::Pen(2)));
}

#[test]
fn the_mouse_history_keeps_the_ten_latest_positions() {
    let mut input = InputManager::new();
    for step in 0..9 {
        input.handle_event(&InputEvent::MouseMotion { x: scalar(step as f32), y: scalar(0.5) });
    }
    assert_eq!(input.mouse_pos_history().len(), 9);
    input.handle_event(&InputEvent::MouseMotion { x: scalar(9.0), y: scalar(0.5) });
    assert_eq!(input.mouse_pos_history().len(), 10);
    input.handle_event(&InputEvent::MouseMotion { x: scalar(10.0), y: scalar(0.5) });
    input.handle_event(&InputEvent::MouseMotion { x: scalar(11.0), y: scalar(0.5) });
    let history = input.mouse_pos_history();
    assert_eq!(history.len(), 10);
    assert_eq!(history[0], (scalar(11.0), scalar(0.5)));
    assert_eq!(history[1], (scalar(10.0), scalar(0.5)));
    assert_eq!(history[9], (scalar(2.0), scalar(0.5)));
}

#[test]
fn the_wheel_sets_the_scroll() {
    let mut input = InputManager::new();
    input.handle_event(&InputEvent::MouseWheel { x: scalar(0.0), y: scalar(-1.0) });
    assert_eq!(input.scroll(), (scalar(0.0), scalar(-1.0)));
    input.handle_event(&InputEvent::MouseWheel { x: scalar(2.0), y: scalar(3.0) });
    assert_eq!(input.scroll(), (scalar(2.0), scalar(3.0)));
}

#[test]
fn each_pen_axis_sets_its_own_field() {
    let mut input = InputManager::new();
    input.handle_event(&InputEvent::PenAxis { axis: PenAxis::Pressure, value: scalar(0.1) });
    input.handle_event(&InputEvent::PenAxis { axis: PenAxis::XTilt, value: scalar(0.2) });
    input.handle_event(&InputEvent::PenAxis { axis: PenAxis::YTilt, value: scalar(0.3) });
    input.handle_event(&InputEvent::PenAxis { axis: PenAxis::Distance, value: scalar(0.4) });
    input.handle_event(&InputEvent::PenAxis { axis: PenAxis::Rotation, value: scalar(0.5) });
    input.handle_event(&InputEvent::PenAxis { axis: PenAxis::Slider, value: scalar(0.6) });
    input.handle_event(&InputEvent::PenAxis {
        axis: PenAxis::TangentialPressure,
        value: scalar(0.7),
    });
    let pen = input.pen();
    assert_eq!(pen.pressure, scalar(0.1));
    assert_eq!(pen.tilt, Vector2 { x: scalar(0.2), y: scalar(0.3) });
    assert_eq!(pen.distance, scalar(0.4));
    assert_eq!(pen.rotation, scalar(0.5));
    assert_eq!(pen.slider, scalar(0.6));
    assert_eq!(pen.tangential_pressure, scalar(0.7));
    input.handle_event(&InputEvent::PenAxis { axis: PenAxis::Unknown, value: scalar(9.0) });
    input.handle_event(&InputEvent::PenAxis { axis: PenAxis::Count, value: scalar(9.0) });
    assert_eq!(input.pen(), pen);
}

#[test]
fn proximity_follows_the_pen() {
    let mut input = InputManager::new();
    input.handle_event(&InputEvent::PenProximityIn);
    assert!(input.pen().proximity);
    input.handle_event(&InputEvent::PenProximityOut);
    assert!(!input.pen().proximity);
}

#[test]
fn events_of_no_interest_change_nothing() {
    let mut input = InputManager::new();
    key_down(&mut input, KEY_A);
    input.handle_event(&InputEvent::MouseMotion { x: scalar(1.0), y: scalar(2.0) });
    input.handle_event(&InputEvent::Other);
    input.handle_event(&InputEvent::PenMotion { x: scalar(5.0), y: scalar(6.0) });
    assert_eq!(input.frames(&Button::Key(KEY_A)), 0);
    assert_eq!(input.mouse_pos_history().len(), 1);
    assert_eq!(input.pen(), PenState::default());
}

#[test]
fn handle_button_takes_only_button_events() {
    let mut input = InputManager::new();
    input.handle_button(&InputEvent::MouseMotion { x: scalar(1.0), y: scalar(2.0) });
    input.handle_button(&InputEvent::MouseWheel { x: scalar(1.0), y: scalar(2.0) });
    assert!(input.mouse_pos_history().is_empty());
    assert_eq!(input.scroll(), (scalar(0.0), scalar(0.0)));
    input.handle_button(&InputEvent::KeyDown { keycode: Some(KEY_A) });
    assert!(input.is_pressed(&Button::Key(KEY_A)));
}

#[test]
fn reset_states_forgets_buttons_mouse_and_pen() {
    let mut input = InputManager::new();
    let key = input.add_keybind(binding(vec![], vec![]));
    key_down(&mut input, KEY_A);
    input.handle_event(&InputEvent::PenDown);
    input.handle_event(&InputEvent::MouseMotion { x: scalar(1.0), y: scalar(2.0) });
    input.handle_event(&InputEvent::MouseWheel { x: scalar(1.0), y: scalar(2.0) });
    input.reset_states();
    assert_eq!(input.frames(&Button::Key(KEY_A)), i32::MAX);
    assert_eq!(input.frames(&left()), i32::MAX);
    assert!(input.mouse_pos_history().is_empty());
    assert_eq!(input.scroll(), (scalar(0.0), scalar(0.0)));
    assert_eq!(input.pen(), PenState::default());
    assert_eq!(input.keybind_state(key), Some(ButtonState::Up(0)));
    input.handle_event(&InputEvent::MouseButtonUp { mouse_btn: MouseButton::Left });
    assert!(!input.is_down(&left()));
}

#[test]
fn button_states_step_and_stop_at_the_top() {
    assert_eq!(ButtonState::first(true), ButtonState::Down(0));
    assert_eq!(ButtonState::first(false), ButtonState::Up(0));
    assert_eq!(ButtonState::Down(4).step(true), ButtonState::Down(5));
    assert_eq!(ButtonState::Down(4).step(false), ButtonState::Up(0));
    assert_eq!(ButtonState::Up(4).step(false), ButtonState::Up(5));
    assert_eq!(ButtonState::Up(4).step(true), ButtonState::Down(0));
    assert_eq!(ButtonState::Down(i32::MAX - 1).step(true), ButtonState::Down(i32::MAX));
    assert_eq!(ButtonState::Down(i32::MAX).step(true), ButtonState::Down(i32::MAX));
    assert_eq!(ButtonState::Up(i32::MAX).step(false), ButtonState::Up(i32::MAX));
    assert_eq!(ButtonState::Up(7).frames(), 7);
    assert_eq!(ButtonState::Down(8).frames(), 8);
}

#[test]
fn a_binding_without_groups_is_active() {
    let mut input = InputManager::new();
    let key = input.add_keybind(binding(vec![], vec![]));
    let screens = ScreenManager::new();
    assert_eq!(input.keybind_state(key), Some(ButtonState::Up(0)));
    input.update(&screens);
    assert_eq!(input.keybind_state(key), Some(ButtonState::Down(0)));
    input.update(&screens);
    assert_eq!(input.keybind_state(key), Some(ButtonState::Down(1)));
}

#[test]
fn a_binding_is_active_while_its_group_is_held() {
    let mut input = InputManager::new();
    let key = input.add_keybind(binding(vec![vec![Button::Key(KEY_A), Button::Key(KEY_S)]], vec![]));
    let screens = ScreenManager::new();
    input.update(&screens);
    assert_eq!(input.keybind_state(key), Some(ButtonState::Up(1)));
    key_down(&mut input, KEY_S);
    input.update(&screens);
    assert_eq!(input.keybind_state(key), Some(ButtonState::Down(0)));
    input.update(&screens);
    assert_eq!(input.keybind_state(key), Some(ButtonState::Down(1)));
    key_up(&mut input, KEY_S);
    input.update(&screens);
    assert_eq!(input.keybind_state(key), Some(ButtonState::Up(0)));
    input.update(&screens);
    assert_eq!(input.keybind_state(key), Some(ButtonState::Up(1)));
}

#[test]
fn groups_must_be_pressed_in_order() {
    let screens = ScreenManager::new();
    let groups = vec![vec![Button::Key(KEY_CTRL)], vec![Button::Key(KEY_S)]];

    let mut in_order = InputManager::new();
    let key = in_order.add_keybind(binding(groups.clone(), vec![]));
    key_down(&mut in_order, KEY_CTRL);
    key_down(&mut in_order, KEY_CTRL);
    key_down(&mut in_order, KEY_S);
    in_order.update(&screens);
    assert_eq!(in_order.keybind_state(key), Some(ButtonState::Down(0)));

    let mut out_of_order = InputManager::new();
    let key = out_of_order.add_keybind(binding(groups.clone(), vec![]));
    key_down(&mut out_of_order, KEY_S);
    key_down(&mut out_of_order, KEY_S);
    key_down(&mut out_of_order, KEY_CTRL);
    out_of_order.update(&screens);
    assert_eq!(out_of_order.keybind_state(key), Some(ButtonState::Up(1)));

    let mut together = InputManager::new();
    let key = together.add_keybind(binding(groups, vec![]));
    key_down(&mut together, KEY_CTRL);
    key_down(&mut together, KEY_S);
    together.update(&screens);
    assert_eq!(together.keybind_state(key), Some(ButtonState::Down(0)));
}

#[test]
fn every_group_must_be_held() {
    let screens = ScreenManager::new();
    let mut input = InputManager::new();
    let key = input.add_keybind(binding(
        vec![vec![Button::Key(KEY_CTRL)], vec![Button::Key(KEY_S)]],
        vec![],
    ));
    key_down(&mut input, KEY_CTRL);
    input.update(&screens);
    assert_eq!(input.keybind_state(key), Some(ButtonState::Up(1)));
    key_up(&mut input, KEY_CTRL);
    key_down(&mut input, KEY_S);
    input.update(&screens);
    assert_eq!(input.keybind_state(key), Some(ButtonState::Up(2)));
}

#[test]
fn the_shortest_held_of_a_group_is_held_against_the_longest_of_the_next() {
    let screens = ScreenManager::new();
    let groups =
        vec![vec![Button::Key(1), Button::Key(2)], vec![Button::Key(3), Button::Key(4)]];
    let mut input = InputManager::new();
    let key = input.add_keybind(binding(groups, vec![]));
    for _ in 0..5 {
        key_down(&mut input, 1);
    }
    for _ in 0..3 {
        key_down(&mut input, 2);
    }
    for _ in 0..2 {
        key_down(&mut input, 3);
    }
    key_down(&mut input, 4);
    input.update(&screens);
    assert_eq!(input.keybind_state(key), Some(ButtonState::Down(0)));
    key_down(&mut input, 3);
    key_down(&mut input, 3);
    input.update(&screens);
    assert_eq!(input.keybind_state(key), Some(ButtonState::Up(0)));
}

#[test]
fn an_exclusive_button_keeps_a_binding_up() {
    let screens = ScreenManager::new();
    let mut input = InputManager::new();
    let key = input.add_keybind(binding(
        vec![vec![Button::Key(KEY_S)]],
        vec![Button::Key(KEY_CTRL), Button::Key(KEY_SHIFT)],
    ));
    key_down(&mut input, KEY_S);
    input.update(&screens);
    assert_eq!(input.keybind_state(key), Some(ButtonState::Down(0)));
    key_down(&mut input, KEY_SHIFT);
    input.update(&screens);
    assert_eq!(input.keybind_state(key), Some(ButtonState::Up(0)));
    key_up(&mut input, KEY_SHIFT);
    input.update(&screens);
    assert_eq!(input.keybind_state(key), Some(ButtonState::Down(0)));
}

#[test]
fn a_binding_attached_to_a_screen_stays_up() {
    let mut screens = ScreenManager::new();
    let mut input = InputManager::new();
    let mut attached = binding(vec![], vec![]);
    attached.attatched_screen = Some(ScreenKey { raw: 1 });
    let key = input.add_keybind(attached);
    input.update(&screens);
    assert_eq!(input.keybind_state(key), Some(ButtonState::Up(1)));
    screens.active_screen = Some(ScreenKey { raw: 1 });
    input.update(&screens);
    assert_eq!(input.keybind_state(key), Some(ButtonState::Up(2)));
}

#[test]
fn update_advances_every_binding() {
    let screens = ScreenManager::new();
    let mut input = InputManager::new();
    let mut keys: Vec<(KeybindKey, bool)> = Vec::new();
    for number in 0..20u32 {
        let held = number % 3 == 0;
        if held {
            key_down(&mut input, number);
        }
        keys.push((input.add_keybind(binding(vec![vec![Button::Key(number)]], vec![])), held));
    }
    input.update(&screens);
    input.update(&screens);
    for (key, held) in keys {
        let expected = if held { ButtonState::Down(1) } else { ButtonState::Up(2) };
        assert_eq!(input.keybind_state(key), Some(expected));
    }
}

#[test]
fn update_leaves_a_binding_as_it_was_but_for_its_state() {
    let screens = ScreenManager::new();
    let mut input = InputManager::new();
    let key = input.add_keybind(binding(
        vec![vec![Button::Key(KEY_S)], vec![Button::Pen(1)]],
        vec![Button::Key(KEY_CTRL)],
    ));
    input.update(&screens);
    key_down(&mut input, KEY_S);
    input.handle_event(&InputEvent::PenButtonDown { button: 1 });
    input.update(&screens);
    assert_eq!(input.keybind_state(key), Some(ButtonState::Down(0)));
    key_down(&mut input, KEY_CTRL);
    input.update(&screens);
    assert_eq!(input.keybind_state(key), Some(ButtonState::Up(0)));
}

#[test]
fn an_unknown_binding_has_no_state() {
    let input = InputManager::new();
    assert_eq!(input.keybind_state(KeybindKey { raw: 0 }), None);
}

#[test]
fn mouse_buttons_have_their_numbers() {
    assert_eq!(MouseButton::Unknown.index(), 0);
    assert_eq!(MouseButton::Left.index(), 1);
    assert_eq!(MouseButton::Middle.index(), 2);
    assert_eq!(MouseButton::Right.index(), 3);
    assert_eq!(MouseButton::X1.index(), 4);
    assert_eq!(MouseButton::X2.index(), 5);
}
