//! The scenes and their stack. The scene on top of the stack is the active
//! one: it alone is updated and receives input.
use vstd::prelude::*;
use crate::input::Event;
use crate::scenes::level::{LevelScene, LevelSceneView};
use crate::types::Point;
use crate::world::{World, WorldView};

pub mod level;

verus! {

/// Any of the scenes.
pub enum Scene {
    Level(LevelScene),
}

/// What a scene holds.
pub enum SceneView {
    Level(LevelSceneView),
}

impl View for Scene {
    type V = SceneView;

    open spec fn view(&self) -> SceneView {
        match *self {
            Scene::Level(scene) => SceneView::Level(scene@),
        }
    }
}

/// What a scene asks of the stack when its update returns.
pub enum Switch {
    /// Stay as it is.
    Stay,
    /// Put a scene on top.
    Push(Scene),
    /// Take the top scene away.
    Pop,
    /// Put a scene in place of the top scene.
    Replace(Scene),
}

/// What a switch holds.
pub enum SwitchView {
    Stay,
    Push(SceneView),
    Pop,
    Replace(SceneView),
}

impl View for Switch {
    type V = SwitchView;

    open spec fn view(&self) -> SwitchView {
        match *self {
            Switch::Stay => SwitchView::Stay,
            Switch::Push(scene) => SwitchView::Push(scene@),
            Switch::Pop => SwitchView::Pop,
            Switch::Replace(scene) => SwitchView::Replace(scene@),
        }
    }
}

impl SceneView {
    /// The world after an update of the scene.
    pub open spec fn updated(self, w: WorldView, mouse: Point, pressed: bool) -> WorldView {
        match self {
            SceneView::Level(scene) => scene.updated(w, mouse, pressed),
        }
    }

    /// What the scene asks of the stack when its update returns.
    pub open spec fn switch(self) -> SwitchView {
        match self {
            SceneView::Level(scene) => scene.switch(),
        }
    }

    /// The scene after a decoded input signal, given the world after it.
    pub open spec fn after_input(self, w: WorldView) -> SceneView {
        match self {
            SceneView::Level(scene) => SceneView::Level(scene.after_input(w)),
        }
    }
}

impl Scene {
    /// Runs one frame of the scene and says what the stack is to do next.
    /// The scene itself does not change.
    pub fn update(&mut self, world: &mut World, mouse: Point, pressed: bool) -> (switch: Switch)
        ensures
            final(world)@ == old(self)@.updated(old(world)@, mouse, pressed),
            final(self)@ == old(self)@,
            switch@ == old(self)@.switch(),
    {
        match self {
            Scene::Level(scene) => scene.update(world, mouse, pressed),
        }
    }

    /// Hands a decoded input signal to the scene.
    pub fn input(&mut self, world: &mut World, ev: Event, started: bool)
        ensures
            final(world)@ == (WorldView {
                input: old(world)@.input.after(ev, started),
                ..old(world)@
            }),
            final(self)@ == old(self)@.after_input(final(world)@),
    {
        match self {
            Scene::Level(scene) => scene.input(world, ev, started),
        }
    }

    /// The name of the scene.
    pub fn name(&self) -> (name: &'static str)
        ensures
            name@ == match self@ {
                SceneView::Level(_) => "LevelScene"@,
            },
    {
        match self {
            Scene::Level(scene) => scene.name(),
        }
    }
}

/// The scenes of a stack after a switch. Taking the top of an empty stack
/// away leaves it empty; replacing the top of an empty stack puts the scene
/// on it.
pub open spec fn switched(scenes: Seq<SceneView>, switch: SwitchView) -> Seq<SceneView> {
    match switch {
        SwitchView::Stay => scenes,
        SwitchView::Push(scene) => scenes.push(scene),
        SwitchView::Pop => if scenes.len() > 0 {
            scenes.drop_last()
        } else {
            scenes
        },
        SwitchView::Replace(scene) => if scenes.len() > 0 {
            scenes.drop_last().push(scene)
        } else {
            scenes.push(scene)
        },
    }
}

/// What a stack holds: the world, and the scenes from the bottom up.
pub struct StackView {
    pub world: WorldView,
    pub scenes: Seq<SceneView>,
}

/// The views of a list of scenes.
pub open spec fn scene_views(scenes: Seq<Scene>) -> Seq<SceneView> {
    Seq::new(scenes.len(), |i: int| scenes[i]@)
}

/// The stack of scenes, with the world they share.
pub struct Stack {
    pub world: World,
    /// The scenes, from the bottom up.
    pub scenes: Vec<Scene>,
}

impl View for Stack {
    type V = StackView;

    open spec fn view(&self) -> StackView {
        StackView { world: self.world@, scenes: scene_views(self.scenes@) }
    }
}

impl Stack {
    /// A stack without scenes around a world.
    pub fn new(world: World) -> (stack: Stack)
        ensures
            stack@ == (StackView { world: world@, scenes: Seq::<SceneView>::empty() }),
            stack.world == world,
            stack.scenes@ == Seq::<Scene>::empty(),
    {
        let stack = Stack { world, scenes: Vec::new() };
        assert(stack@.scenes =~= Seq::<SceneView>::empty());
        stack
    }

    /// How many scenes the stack holds.
    pub fn len(&self) -> (n: usize)
        ensures
            n == self@.scenes.len(),
            self@.world == self.world@,
    {
        self.scenes.len()
    }

    /// Puts a scene on top.
    pub fn push(&mut self, scene: Scene)
        ensures
            final(self)@ == (StackView {
                world: old(self)@.world,
                scenes: old(self)@.scenes.push(scene@),
            }),
            final(self).world == old(self).world,
    {
        self.scenes.push(scene);
        assert(self@.scenes =~= old(self)@.scenes.push(scene@));
    }

    /// Takes the top scene away and returns it; `None` if there is none.
    pub fn pop(&mut self) -> (top: Option<Scene>)
        ensures
            final(self)@ == (StackView {
                world: old(self)@.world,
                scenes: switched(old(self)@.scenes, SwitchView::Pop),
            }),
            final(self).world == old(self).world,
            top.is_some() == (old(self)@.scenes.len() > 0),
            top.is_some() ==> top.unwrap()@ == old(self)@.scenes.last(),
    {
        let top = self.scenes.pop();
        assert(self@.scenes =~= switched(old(self)@.scenes, SwitchView::Pop));
        top
    }

    /// The active scene: the one on top.
    pub fn current(&self) -> (top: Option<&Scene>)
        ensures
            top.is_some() == (self@.scenes.len() > 0),
            top.is_some() ==> top.unwrap()@ == self@.scenes.last(),
    {
        let n = self.scenes.len();
        if n > 0 {
            Some(&self.scenes[n - 1])
        } else {
            None
        }
    }

    /// Applies a switch and returns the scene that left the stack, if one
    /// did.
    pub fn switch(&mut self, next: Switch) -> (left: Option<Scene>)
        ensures
            final(self)@ == (StackView {
                world: old(self)@.world,
                scenes: switched(old(self)@.scenes, next@),
            }),
            final(self).world == old(self).world,
            left.is_some() == ((next@ is Pop || next@ is Replace) && old(self)@.scenes.len() > 0),
            left.is_some() ==> left.unwrap()@ == old(self)@.scenes.last(),
    {
        match next {
            Switch::Stay => None,
            Switch::Pop => self.pop(),
            Switch::Push(scene) => {
                self.push(scene);
                None
            },
            Switch::Replace(scene) => {
                let left = self.pop();
                self.push(scene);
                left
            },
        }
    }

    /// Runs one frame: updates the active scene, then applies the switch it
    /// returned, never while the scene still runs. Without a scene nothing
    /// happens.
    pub fn update(&mut self, mouse: Point, pressed: bool)
        ensures
            old(self)@.scenes.len() == 0 ==> final(self)@ == old(self)@,
            old(self)@.scenes.len() > 0 ==> final(self)@ == (StackView {
                world: old(self)@.scenes.last().updated(old(self)@.world, mouse, pressed),
                scenes: switched(old(self)@.scenes, old(self)@.scenes.last().switch()),
            }),
    {
        let n = self.scenes.len();
        if n == 0 {
            return ;
        }
        let ghost before = self@.scenes;
        let next = self.scenes[n - 1].update(&mut self.world, mouse, pressed);
        assert(self@.scenes =~= before);
        self.switch(next);
    }

    /// Hands a decoded input signal to the active scene, and to no other.
    /// Without a scene nothing happens.
    pub fn input(&mut self, ev: Event, started: bool)
        ensures
            old(self)@.scenes.len() == 0 ==> final(self)@ == old(self)@,
            old(self)@.scenes.len() > 0 ==> final(self)@ == (StackView {
                world: WorldView {
                    input: old(self)@.world.input.after(ev, started),
                    ..old(self)@.world
                },
                scenes: old(self)@.scenes.drop_last().push(
                    old(self)@.scenes.last().after_input(final(self)@.world),
                ),
            }),
    {
        let n = self.scenes.len();
        if n == 0 {
            return ;
        }
        let ghost before = self@.scenes;
        self.scenes[n - 1].input(&mut self.world, ev, started);
        assert(self@.scenes =~= before.drop_last().push(before.last().after_input(self@.world)));
    }
}

} // verus!
