//! Actions, the store capability, and the dispatcher that delivers each
//! action to every store.
use vstd::prelude::*;

use crate::commands::CommandAction;
use crate::message::GroupMessages;
use crate::types::{Group, GroupId};
use crate::xmtp::XMTPAction;

verus! {

/// A key of the keyboard.
#[derive(Clone, Copy, Debug, PartialEq, Eq)]
pub enum KeyCode {
    Char(char),
    Enter,
    Backspace,
    Delete,
    Left,
    Right,
    Up,
    Down,
    Home,
    End,
    Tab,
    Esc,
    Other,
}

/// A key press, with its modifiers.
#[derive(Clone, Copy, Debug, PartialEq, Eq)]
pub struct Key {
    pub code: KeyCode,
    pub ctrl: bool,
    pub alt: bool,
    pub shift: bool,
}

/// Everything that can happen in the application.
#[derive(Clone, Debug, PartialEq, Eq)]
pub enum Action {
    Quit,
    Resume,
    Suspend,
    Tick,
    RenderTick,
    KeyPress(Key),
    Resize(u16, u16),
    EnterNormal,
    EnterInsert,
    /// A message from the application itself: group, then sender and text.
    FakeMessage(GroupId, String, String),
    ReceiveMessages(Vec<GroupMessages>),
    SetFocusedGroup(Group),
    NewGroups(Vec<Group>),
    ChangeRoom(usize),
    XMTP(XMTPAction),
    Command(CommandAction),
    Noop,
}

/// Work that a store hands back for the surrounding loops to carry out.
#[derive(Clone, Debug, PartialEq, Eq)]
pub enum Effect {
    /// Put an action on the event source.
    Event(Action),
    /// Queue a command for the command loop.
    Command(CommandAction),
    /// Queue an operation for the backend loop.
    Xmtp(XMTPAction),
    /// Hand the key to the text editor of the input box.
    EditInput(Key),
    /// Open a new line in the input box.
    InsertNewline,
    /// Submit the text of the input box.
    SubmitInput,
}

/// Why a store could not apply an action.
#[derive(Clone, Debug, PartialEq, Eq)]
pub enum StoreError {
    /// The command line did not parse.
    Command(crate::commands::CommandError),
}

/// A unit of state that reacts to actions.
pub trait Store: Sized {
    /// The store's own consistency condition.
    spec fn inv(&self) -> bool;

    /// What applying `action` to `before` leaves (`after`) and returns (`r`).
    spec fn updated(before: Self, action: Action, after: Self, r: Result<Vec<Effect>, StoreError>) -> bool;

    fn update(&mut self, action: &Action) -> (r: Result<Vec<Effect>, StoreError>)
        requires
            old(self).inv(),
        ensures
            final(self).inv(),
            Self::updated(*old(self), *action, *final(self), r),
    ;
}

/// The outcome of dispatching one action.
pub struct Dispatched {
    /// `Quit` when the action was `Quit`, otherwise `Noop`.
    pub action: Action,
    /// What each store returned, in the order of the stores.
    pub results: Vec<Result<Vec<Effect>, StoreError>>,
}

/// Delivers actions to stores.
pub struct Dispatcher;

impl Dispatcher {
    /// Delivers `action` to every store, in order, and waits for all of them.
    ///
    /// `Quit` is handed back at once and reaches no store. Otherwise each store
    /// is updated whatever the others returned, and `Noop` comes back.
    pub fn dispatch<S: Store>(stores: &mut Vec<S>, action: Action) -> (r: Dispatched)
        requires
            forall|i: int| 0 <= i < old(stores)@.len() ==> (#[trigger] old(stores)@[i]).inv(),
        ensures
            final(stores)@.len() == old(stores)@.len(),
            forall|i: int| 0 <= i < final(stores)@.len() ==> (#[trigger] final(stores)@[i]).inv(),
            action is Quit ==> r.action is Quit && final(stores)@ == old(stores)@ && r.results@.len() == 0,
            !(action is Quit) ==> {
                &&& r.action is Noop
                &&& r.results@.len() == old(stores)@.len()
                &&& forall|i: int|
                    0 <= i < old(stores)@.len() ==> S::updated(
                        #[trigger] old(stores)@[i],
                        action,
                        final(stores)@[i],
                        r.results@[i],
                    )
            },
    {
        if let Action::Quit = action {
            return Dispatched { action: Action::Quit, results: Vec::new() };
        }
        let ghost before = stores@;
        let n = stores.len();
        let mut done: Vec<S> = Vec::new();
        let mut results: Vec<Result<Vec<Effect>, StoreError>> = Vec::new();
        let mut i: usize = 0;
        while i < n
            invariant
                n == before.len(),
                i <= n,
                done@.len() == i,
                results@.len() == i,
                stores@ == before.subrange(i as int, n as int),
                forall|k: int| 0 <= k < before.len() ==> (#[trigger] before[k]).inv(),
                forall|k: int| 0 <= k < i ==> (#[trigger] done@[k]).inv(),
                forall|k: int| 0 <= k < i ==> S::updated(#[trigger] before[k], action, done@[k], results@[k]),
            decreases n - i,
        {
            let mut s = stores.remove(0);
            proof {
                assert(s == before[i as int]);
                assert(stores@ =~= before.subrange(i + 1, n as int));
            }
            let res = s.update(&action);
            done.push(s);
            results.push(res);
            i = i + 1;
        }
        *stores = done;
        Dispatched { action: Action::Noop, results }
    }
}

} // verus!
