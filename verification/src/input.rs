//! Decoded input: logical axes and buttons, and the state that their events
//! fold into. Which key stands for which of them is decided elsewhere.
use vstd::prelude::*;

verus! {

/// The logical buttons.
#[derive(Clone, Copy, Debug, PartialEq, Eq, Structural, Hash)]
pub enum Button {
    Select,
    Back,
    Menu,
    Quit,
}

/// The logical axes.
#[derive(Clone, Copy, Debug, PartialEq, Eq, Structural, Hash)]
pub enum Axis {
    Vertical,
    Horizontal,
}

/// A decoded input signal.
#[derive(Clone, Copy, Debug, PartialEq, Eq, Structural, Hash)]
pub enum Event {
    /// An axis is pushed towards its positive (`true`) or negative end.
    Axis(Axis, bool),
    /// A button.
    Button(Button),
}

/// The state of the logical axes and buttons: for each axis the end it is
/// pushed towards (`-1`, `0` or `1`), for each button whether it is held.
#[derive(Clone, Copy, Debug, PartialEq, Eq, Structural, Hash)]
pub struct State {
    pub vertical: i32,
    pub horizontal: i32,
    pub select: bool,
    pub back: bool,
    pub menu: bool,
    pub quit: bool,
}

/// An axis after one of its signals: a signal that starts pushes the axis to
/// that end; one that ends releases the axis if it was pushed to that end,
/// and is ignored otherwise.
pub open spec fn axis_after(direction: i32, positive: bool, started: bool) -> i32 {
    if started {
        if positive { 1i32 } else { -1i32 }
    } else if (positive && direction > 0) || (!positive && direction < 0) {
        0i32
    } else {
        direction
    }
}

impl State {
    /// Whether each axis holds `-1`, `0` or `1`.
    pub open spec fn wf(self) -> bool {
        -1 <= self.vertical <= 1 && -1 <= self.horizontal <= 1
    }

    /// The state after a signal that starts (`started`) or ends.
    pub open spec fn after(self, ev: Event, started: bool) -> State {
        match ev {
            Event::Axis(Axis::Vertical, positive) => State {
                vertical: axis_after(self.vertical, positive, started),
                ..self
            },
            Event::Axis(Axis::Horizontal, positive) => State {
                horizontal: axis_after(self.horizontal, positive, started),
                ..self
            },
            Event::Button(Button::Select) => State { select: started, ..self },
            Event::Button(Button::Back) => State { back: started, ..self },
            Event::Button(Button::Menu) => State { menu: started, ..self },
            Event::Button(Button::Quit) => State { quit: started, ..self },
        }
    }

    /// The end an axis is pushed towards.
    pub open spec fn axis(self, axis: Axis) -> i32 {
        match axis {
            Axis::Vertical => self.vertical,
            Axis::Horizontal => self.horizontal,
        }
    }

    /// Whether a button is held.
    pub open spec fn button(self, button: Button) -> bool {
        match button {
            Button::Select => self.select,
            Button::Back => self.back,
            Button::Menu => self.menu,
            Button::Quit => self.quit,
        }
    }

    /// The state in which every axis rests and no button is held.
    pub open spec fn new_spec() -> State {
        State { vertical: 0, horizontal: 0, select: false, back: false, menu: false, quit: false }
    }

    /// The state in which every axis rests and no button is held.
    #[verifier::when_used_as_spec(new_spec)]
    pub fn new() -> (state: State)
        ensures
            state == State::new_spec(),
            state.wf(),
    {
        State { vertical: 0, horizontal: 0, select: false, back: false, menu: false, quit: false }
    }

    /// Folds a signal into the state.
    pub fn update_effect(&mut self, ev: Event, started: bool)
        ensures
            *final(self) == old(self).after(ev, started),
            old(self).wf() ==> final(self).wf(),
    {
        match ev {
            Event::Axis(axis, positive) => {
                let direction = match axis {
                    Axis::Vertical => self.vertical,
                    Axis::Horizontal => self.horizontal,
                };
                let next: i32 = if started {
                    if positive { 1 } else { -1 }
                } else if (positive && direction > 0) || (!positive && direction < 0) {
                    0
                } else {
                    direction
                };
                match axis {
                    Axis::Vertical => {
                        self.vertical = next;
                    },
                    Axis::Horizontal => {
                        self.horizontal = next;
                    },
                }
            },
            Event::Button(button) => match button {
                Button::Select => {
                    self.select = started;
                },
                Button::Back => {
                    self.back = started;
                },
                Button::Menu => {
                    self.menu = started;
                },
                Button::Quit => {
                    self.quit = started;
                },
            },
        }
    }

    /// The end an axis is pushed towards: `-1`, `0` or `1` in a state that
    /// signals built.
    pub fn get_axis_raw(&self, axis: Axis) -> (direction: i32)
        ensures
            direction == self.axis(axis),
    {
        match axis {
            Axis::Vertical => self.vertical,
            Axis::Horizontal => self.horizontal,
        }
    }

    /// Whether a button is held.
    pub fn get_button_pressed(&self, button: Button) -> (held: bool)
        ensures
            held == self.button(button),
    {
        match button {
            Button::Select => self.select,
            Button::Back => self.back,
            Button::Menu => self.menu,
            Button::Quit => self.quit,
        }
    }
}

} // verus!
