//! The chat page: the tree of stores that actions are dispatched to.
use vstd::prelude::*;

use crate::dispatch::{Action, Dispatched, Dispatcher, Effect, Store, StoreError};
use crate::types::system_group;
use crate::views::{welcome_entries, ChatArea, ChatRooms, InputBox};

verus! {

/// One view of the page, as a store.
pub enum Pane {
    Input(InputBox),
    Area(ChatArea),
    Rooms(ChatRooms),
}

impl Store for Pane {
    open spec fn inv(&self) -> bool {
        match self {
            Pane::Input(v) => v.inv(),
            Pane::Area(v) => v.inv(),
            Pane::Rooms(v) => v.inv(),
        }
    }

    open spec fn updated(before: Self, action: Action, after: Self, r: Result<Vec<Effect>, StoreError>) -> bool {
        match (before, after) {
            (Pane::Input(b), Pane::Input(a)) => InputBox::updated(b, action, a, r),
            (Pane::Area(b), Pane::Area(a)) => ChatArea::updated(b, action, a, r),
            (Pane::Rooms(b), Pane::Rooms(a)) => ChatRooms::updated(b, action, a, r),
            _ => false,
        }
    }

    fn update(&mut self, action: &Action) -> (r: Result<Vec<Effect>, StoreError>) {
        match self {
            Pane::Input(v) => v.update(action),
            Pane::Area(v) => v.update(action),
            Pane::Rooms(v) => v.update(action),
        }
    }
}

/// The page: the input box, the chat area and the rooms list, in the order
/// actions reach them.
pub struct ChatPage {
    views: Vec<Pane>,
}

impl ChatPage {
    /// The views, in dispatch order.
    pub closed spec fn spec_views(&self) -> Seq<Pane> {
        self.views@
    }

    /// The page has its three views, in order, each consistent.
    pub open spec fn wf(&self) -> bool {
        &&& self.spec_views().len() == 3
        &&& self.spec_views()[0] is Input
        &&& self.spec_views()[1] is Area
        &&& self.spec_views()[2] is Rooms
        &&& forall|i: int| 0 <= i < 3 ==> (#[trigger] self.spec_views()[i]).inv()
    }

    /// The page at start: the input box addressed to the system channel, the
    /// chat area holding the welcome messages with the system channel in
    /// focus, and the rooms list holding the `xchat` room, in focus.
    pub fn new() -> (r: Self)
        ensures
            r.wf(),
            r.spec_views()[0] matches Pane::Input(b) && b.spec_focused_group()@ == system_group(),
            r.spec_views()[1] matches Pane::Area(a) && a.spec_messages().focused@ == seq![0u8]
                && a.spec_messages().entries() == welcome_entries(),
            r.spec_views()[2] matches Pane::Rooms(m) && m@.rooms == seq!["xchat"@] && m@.groups == seq![
                system_group(),
            ] && m@.focused == 0,
    {
        let input = InputBox::new();
        let area = ChatArea::default();
        let rooms = ChatRooms::new();
        let views = vec![Pane::Input(input), Pane::Area(area), Pane::Rooms(rooms)];
        let r = ChatPage { views };
        proof {
            assert(r.spec_views()[0].inv());
            assert(r.spec_views()[1].inv());
            assert(r.spec_views()[2].inv());
        }
        r
    }

    /// The views, in dispatch order.
    pub fn stores(&self) -> (r: &Vec<Pane>)
        ensures
            r@ == self.spec_views(),
    {
        &self.views
    }

    /// Delivers `action` to every view of the page; see `Dispatcher::dispatch`.
    pub fn dispatch(&mut self, action: Action) -> (r: Dispatched)
        requires
            old(self).wf(),
        ensures
            final(self).wf(),
            action is Quit ==> r.action is Quit && final(self).spec_views() == old(self).spec_views(),
            !(action is Quit) ==> {
                &&& r.action is Noop
                &&& r.results@.len() == 3
                &&& forall|i: int|
                    0 <= i < 3 ==> Pane::updated(
                        #[trigger] old(self).spec_views()[i],
                        action,
                        final(self).spec_views()[i],
                        r.results@[i],
                    )
            },
    {
        let r = Dispatcher::dispatch(&mut self.views, action);
        proof {
            if !(action is Quit) {
                assert(Pane::updated(old(self).spec_views()[0], action, self.spec_views()[0], r.results@[0]));
                assert(Pane::updated(old(self).spec_views()[1], action, self.spec_views()[1], r.results@[1]));
                assert(Pane::updated(old(self).spec_views()[2], action, self.spec_views()[2], r.results@[2]));
            }
        }
        r
    }
}

impl Store for ChatPage {
    open spec fn inv(&self) -> bool {
        self.wf()
    }

    open spec fn updated(before: Self, action: Action, after: Self, r: Result<Vec<Effect>, StoreError>) -> bool {
        after == before && (r matches Ok(v) && v@.len() == 0)
    }

    /// The page itself keeps no state that an action changes.
    fn update(&mut self, action: &Action) -> (r: Result<Vec<Effect>, StoreError>) {
        Ok(Vec::new())
    }
}

} // verus!
