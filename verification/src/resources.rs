//! The shared resources: singleton values that the systems of a scene read
//! and write.
use vstd::prelude::*;
use crate::map::{GridMap, GridMapView};
use crate::storage::Entity;
use crate::types::Point;

verus! {

/// The input of one frame. It is rewritten at the start of every update,
/// before the systems run.
#[derive(Clone, Copy, Debug, PartialEq, Eq, Structural, Hash)]
pub struct Input {
    /// Horizontal axis: `-1`, `0` or `1`.
    pub horizontal: i32,
    /// Vertical axis: `-1`, `0` or `1`.
    pub vertical: i32,
    /// The mouse, in window coordinates.
    pub mouse_position: Point,
    /// Whether the mouse button is down in this frame.
    pub mouse_pressed: bool,
}

impl Input {
    /// Resting axes, the mouse at the origin and not pressed.
    pub fn new() -> (input: Input)
        ensures
            input == (Input {
                horizontal: 0,
                vertical: 0,
                mouse_position: Point { x: 0, y: 0 },
                mouse_pressed: false,
            }),
    {
        Input {
            horizontal: 0,
            vertical: 0,
            mouse_position: Point { x: 0, y: 0 },
            mouse_pressed: false,
        }
    }
}

/// The selection: at most one entity, and whether a click locked it.
#[derive(Clone, Copy, Debug, PartialEq, Eq, Structural, Hash)]
pub struct Selected {
    /// The selected entity.
    pub player: Option<Entity>,
    /// Whether the selection is locked: hovering does not change a locked
    /// selection.
    pub is_clicked: bool,
}

impl Selected {
    /// Nothing selected, not locked.
    pub fn new() -> (selected: Selected)
        ensures
            selected == (Selected { player: None, is_clicked: false }),
    {
        Selected { player: None, is_clicked: false }
    }
}

/// The names of the resources.
#[derive(Clone, Copy, Debug, PartialEq, Eq, Structural, Hash)]
pub enum ResourceKind {
    Input,
    Selected,
    GridMap,
}

/// What the resources hold.
pub struct ResourcesView {
    pub input: Option<Input>,
    pub selected: Option<Selected>,
    pub map: Option<GridMapView>,
}

impl ResourcesView {
    /// Whether a resource is there.
    pub open spec fn holds(self, kind: ResourceKind) -> bool {
        match kind {
            ResourceKind::Input => self.input.is_some(),
            ResourceKind::Selected => self.selected.is_some(),
            ResourceKind::GridMap => self.map.is_some(),
        }
    }
}

/// The resources of a scene. Each is there or not; a scene adds those that
/// its systems declare before it starts.
pub struct Resources {
    pub input: Option<Input>,
    pub selected: Option<Selected>,
    pub map: Option<GridMap>,
}

impl View for Resources {
    type V = ResourcesView;

    open spec fn view(&self) -> ResourcesView {
        ResourcesView {
            input: self.input,
            selected: self.selected,
            map: match self.map {
                Some(map) => Some(map@),
                None => None,
            },
        }
    }
}

impl Resources {
    /// No resource at all.
    pub fn new() -> (resources: Resources)
        ensures
            resources@ == (ResourcesView { input: None, selected: None, map: None }),
    {
        Resources { input: None, selected: None, map: None }
    }

    /// Whether a resource is there.
    pub fn has(&self, kind: ResourceKind) -> (b: bool)
        ensures
            b == self@.holds(kind),
    {
        match kind {
            ResourceKind::Input => self.input.is_some(),
            ResourceKind::Selected => self.selected.is_some(),
            ResourceKind::GridMap => self.map.is_some(),
        }
    }
}

} // verus!
