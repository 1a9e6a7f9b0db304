use tile_world::input::{Axis, Button, Event, State};
use tile_world::resources::{Input, ResourceKind, Resources, Selected};
use tile_world::types::Point;

#[test]
fn new_state_rests() {
    let state = State::new();
    assert_eq!(state.get_axis_raw(Axis::Vertical), 0);
    assert_eq!(state.get_axis_raw(Axis::Horizontal), 0);
    for button in [Button::Select, Button::Back, Button::Menu, Button::Quit] {
        assert!(!state.get_button_pressed(button));
    }
}

#[test]
fn axis_signals_fold_into_the_direction() {
    let mut state = State::new();
    state.update_effect(Event::Axis(Axis::Horizontal, true), true);
    assert_eq!(state.get_axis_raw(Axis::Horizontal), 1);
    assert_eq!(state.get_axis_raw(Axis::Vertical), 0);
    state.update_effect(Event::Axis(Axis::Horizontal, false), true);
    assert_eq!(state.get_axis_raw(Axis::Horizontal), -1);
    state.update_effect(Event::Axis(Axis::Horizontal, true), false);
    assert_eq!(state.get_axis_raw(Axis::Horizontal), -1);
    state.update_effect(Event::Axis(Axis::Horizontal, false), false);
    assert_eq!(state.get_axis_raw(Axis::Horizontal), 0);
    state.update_effect(Event::Axis(Axis::Vertical, false), true);
    assert_eq!(state.get_axis_raw(Axis::Vertical), -1);
    assert_eq!(state.get_axis_raw(Axis::Horizontal), 0);
    state.update_effect(Event::Axis(Axis::Vertical, false), false);
    assert_eq!(state.get_axis_raw(Axis::Vertical), 0);
}

#[test]
fn button_signals_fold_into_held_flags() {
    let mut state = State::new();
    state.update_effect(Event::Button(Button::Menu), true);
    assert!(state.get_button_pressed(Button::Menu));
    assert!(!state.get_button_pressed(Button::Quit));
    state.update_effect(Event::Button(Button::Quit), true);
    state.update_effect(Event::Button(Button::Menu), false);
    assert!(!state.get_button_pressed(Button::Menu));
    assert!(state.get_button_pressed(Button::Quit));
    assert_eq!(state.get_axis_raw(Axis::Vertical), 0);
}

#[test]
fn fresh_resources() {
    let input = Input::new();
    assert_eq!(input.horizontal, 0);
    assert_eq!(input.vertical, 0);
    assert_eq!(input.mouse_position, Point::new(0, 0));
    assert!(!input.mouse_pressed);
    assert_eq!(Selected::new(), Selected { player: None, is_clicked: false });
    let mut resources = Resources::new();
    assert!(!resources.has(ResourceKind::Input));
    assert!(!resources.has(ResourceKind::Selected));
    assert!(!resources.has(ResourceKind::GridMap));
    resources.selected = Some(Selected::new());
    assert!(resources.has(ResourceKind::Selected));
    assert!(!resources.has(ResourceKind::Input));
}
