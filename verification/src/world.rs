//! The world that the systems work on: the component store, the resources,
//! the decoded input state, and the messages waiting to be sent.
use vstd::prelude::*;
use crate::input::State;
use crate::network::{messages_view, Message, MessageView};
use crate::resources::{Resources, ResourcesView};
use crate::store::{ComponentStore, StoreView};

verus! {

/// What a world holds.
pub struct WorldView {
    pub store: StoreView,
    pub resources: ResourcesView,
    pub input: State,
    /// The messages that wait to be sent, oldest first.
    pub outbox: Seq<MessageView>,
}

/// The world.
pub struct World {
    pub store: ComponentStore,
    pub resources: Resources,
    pub input: State,
    /// The messages that wait to be sent, oldest first. Whoever owns the
    /// transports takes them and sends them; a failed send is its concern.
    pub outbox: Vec<Message>,
}

impl View for World {
    type V = WorldView;

    open spec fn view(&self) -> WorldView {
        WorldView {
            store: self.store@,
            resources: self.resources@,
            input: self.input,
            outbox: messages_view(self.outbox@),
        }
    }
}

impl World {
    /// A world without entities, resources or messages, with resting input.
    pub fn new() -> (world: World)
        ensures
            world@.store.wf(),
            world@.store.created == 0,
            world@.store.alive == Set::<crate::storage::Entity>::empty(),
            world@.resources == (ResourcesView { input: None, selected: None, map: None }),
            world@.input == State::new_spec(),
            world@.outbox == Seq::<MessageView>::empty(),
    {
        let world = World {
            store: ComponentStore::new(),
            resources: Resources::new(),
            input: State::new(),
            outbox: Vec::new(),
        };
        assert(world@.outbox =~= Seq::<MessageView>::empty());
        world
    }

    /// Hands out the messages that wait to be sent and empties the outbox.
    /// Nothing else changes.
    pub fn take_outbox(&mut self) -> (messages: Vec<Message>)
        ensures
            messages_view(messages@) == old(self)@.outbox,
            final(self)@ == (WorldView { outbox: Seq::<MessageView>::empty(), ..old(self)@ }),
    {
        let mut messages: Vec<Message> = Vec::new();
        core::mem::swap(&mut self.outbox, &mut messages);
        assert(self@.outbox =~= Seq::<MessageView>::empty());
        messages
    }
}

} // verus!
