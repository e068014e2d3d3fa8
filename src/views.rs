//! The views of the chat page, each a store of its own slice of state.
use vstd::prelude::*;

use crate::commands::{parses_to, CommandAction, CommandError};
use crate::dispatch::{Action, Effect, Key, KeyCode, Store, StoreError};
use crate::message::{
    after_batches, batch_views, delivered, group_ids, group_messages, has_group, labelled, lemma_replay_appends,
    messages_of, with_groups, GroupMessages, Message,
    MessageKind, MessageView, Messages, appended, application_only, WELCOME_MESSAGE,
};
use crate::poller::group_views;
use crate::types::{id_label, system_group, Group, GroupIdWrapper, GroupView};
use crate::xmtp::XMTPAction;

verus! {

/// The message pane: the messages of every group, and the group in focus.
pub struct ChatArea {
    messages: Messages,
}

/// A message from the application itself, as plain values.
pub open spec fn system_view(user: Seq<char>, text: Seq<char>) -> MessageView {
    MessageView { user, kind: MessageKind::Application, sent_at: 0, text }
}

/// The greeting shown in the system channel.
pub open spec fn hello_text() -> Seq<char> {
    "Hello! Welcome to xChat. Use the `/help` command to get started!"@
}

impl ChatArea {
    /// The messages, as the chat area holds them.
    pub closed spec fn spec_messages(&self) -> Messages {
        self.messages
    }

    pub fn messages(&self) -> (r: &Messages)
        ensures
            *r == self.spec_messages(),
    {
        &self.messages
    }

    /// The senders and texts of the application messages of the focused group;
    /// none when the focused group has no entry.
    pub fn visible(&self) -> (r: (Vec<String>, Vec<String>))
        requires
            self.inv(),
        ensures
            r.0@.len() == r.1@.len(),
            !has_group(self.spec_messages().entries(), self.spec_messages().focused@) ==> r.0@.len() == 0,
            has_group(self.spec_messages().entries(), self.spec_messages().focused@) ==> {
                let shown = application_only(messages_of(self.spec_messages().entries(), self.spec_messages().focused@));
                &&& r.0@.len() == shown.len()
                &&& forall|k: int|
                    0 <= k < r.0@.len() ==> #[trigger] r.0@[k]@ == shown[k].user && r.1@[k]@ == shown[k].text
            },
    {
        match self.messages.find(&self.messages.focused) {
            Some(i) => {
                proof {
                    assert(has_group(self.messages.entries(), self.messages.focused@) ) by {
                        assert(self.messages.entries()[i as int].0 == self.messages.focused@);
                    }
                }
                self.messages.get()
            },
            None => (Vec::new(), Vec::new()),
        }
    }
}

/// The system channel's entry at start: the welcome text, then the greeting.
pub open spec fn welcome_entries() -> Seq<(Seq<u8>, Seq<MessageView>)> {
    seq![
        (
            seq![0u8],
            seq![labelled(system_view("xchat"@, WELCOME_MESSAGE@)), labelled(system_view("xchat"@, hello_text()))],
        ),
    ]
}

impl Default for ChatArea {
    /// A chat area holding the welcome text and a greeting in the system
    /// channel, which is in focus.
    fn default() -> (r: Self)
        ensures
            r.inv(),
            r.spec_messages().focused@ == seq![0u8],
            r.spec_messages().entries() == welcome_entries(),
    {
        let mut messages = Messages::new();
        let id: Vec<u8> = vec![0u8];
        proof {
            assert(id@ =~= seq![0u8]);
        }
        messages.add(
            &id,
            Message {
                user: String::from_str("xchat"),
                kind: MessageKind::Application,
                sent_at: 0,
                text: String::from_str(WELCOME_MESSAGE),
            },
        );
        messages.add(
            &id,
            Message {
                user: String::from_str("xchat"),
                kind: MessageKind::Application,
                sent_at: 0,
                text: String::from_str("Hello! Welcome to xChat. Use the `/help` command to get started!"),
            },
        );
        proof {
            let e1 = appended(Seq::empty(), seq![0u8], seq![labelled(system_view("xchat"@, WELCOME_MESSAGE@))]);
            assert(!has_group(Seq::<(Seq<u8>, Seq<MessageView>)>::empty(), seq![0u8]));
            assert(e1 == seq![(seq![0u8], seq![labelled(system_view("xchat"@, WELCOME_MESSAGE@))])]);
            assert(e1[0].0 == seq![0u8]);
            assert(has_group(e1, seq![0u8]));
            let a = labelled(system_view("xchat"@, WELCOME_MESSAGE@));
            let b = labelled(system_view("xchat"@, hello_text()));
            let e2 = appended(e1, seq![0u8], seq![b]);
            assert(seq![a] + seq![b] =~= seq![a, b]);
            assert(e2[0] == (seq![0u8], seq![a] + seq![b]));
            assert(e2 =~= seq![
                (
                    seq![0u8],
                    seq![
                        labelled(system_view("xchat"@, WELCOME_MESSAGE@)),
                        labelled(system_view("xchat"@, hello_text())),
                    ],
                ),
            ]);
        }
        ChatArea { messages }
    }
}

impl Store for ChatArea {
    open spec fn inv(&self) -> bool {
        self.spec_messages().wf()
    }

    open spec fn updated(before: Self, action: Action, after: Self, r: Result<Vec<Effect>, StoreError>) -> bool {
        &&& r matches Ok(v) && v@.len() == 0
        &&& match action {
            Action::FakeMessage(id, user, text) => after.spec_messages().entries() == appended(
                before.spec_messages().entries(),
                id@,
                seq![labelled(system_view(user@, text@))],
            ) && after.spec_messages().focused == before.spec_messages().focused,
            Action::ReceiveMessages(b) => after.spec_messages().entries() == after_batches(
                before.spec_messages().entries(),
                batch_views(b@),
            ) && after.spec_messages().focused == before.spec_messages().focused,
            Action::SetFocusedGroup(g) => after.spec_messages().entries() == before.spec_messages().entries()
                && after.spec_messages().focused@ == g@.id,
            Action::NewGroups(gs) => after.spec_messages().entries() == with_groups(
                before.spec_messages().entries(),
                group_ids(gs@),
            ) && after.spec_messages().focused == before.spec_messages().focused,
            _ => after == before,
        }
    }

    fn update(&mut self, action: &Action) -> (r: Result<Vec<Effect>, StoreError>) {
        match action {
            Action::FakeMessage(group_id, user, text) => {
                let m = Message {
                    user: user.clone(),
                    kind: MessageKind::Application,
                    sent_at: 0,
                    text: text.clone(),
                };
                self.messages.add(group_id, m);
            },
            Action::ReceiveMessages(batches) => {
                self.messages.add_group_messages(batches);
            },
            Action::SetFocusedGroup(group) => {
                self.messages.set_focus(group.id());
            },
            Action::NewGroups(groups) => {
                self.messages.add_groups(groups);
            },
            _ => {},
        }
        Ok(Vec::new())
    }
}

/// Delivering a batch of messages to the chat area twice, as a replay does,
/// appends to each group the batch's application messages twice, in order:
/// the chat area keeps order and does not drop repeats.
pub proof fn lemma_chat_area_replay(
    before: ChatArea,
    middle: ChatArea,
    after: ChatArea,
    batches: Vec<GroupMessages>,
    r1: Result<Vec<Effect>, StoreError>,
    r2: Result<Vec<Effect>, StoreError>,
    id: Seq<u8>,
)
    requires
        before.inv(),
        ChatArea::updated(before, Action::ReceiveMessages(batches), middle, r1),
        ChatArea::updated(middle, Action::ReceiveMessages(batches), after, r2),
    ensures
        r1 is Ok && r2 is Ok,
        group_messages(after.spec_messages().entries(), id) == group_messages(before.spec_messages().entries(), id)
            + delivered(batch_views(batches@), id) + delivered(batch_views(batches@), id),
{
    lemma_replay_appends(before.spec_messages().entries(), batch_views(batches@), id);
}

/// The rooms list, as plain values.
pub struct RoomsView {
    /// One label per group.
    pub rooms: Seq<Seq<char>>,
    pub groups: Seq<GroupView>,
    /// Index of the focused group.
    pub focused: int,
}

/// The list of rooms, one per group, with the focused one.
pub struct ChatRooms {
    rooms: Vec<String>,
    groups: Vec<Group>,
    focused: usize,
}

/// The labels of the groups of `gs`, in order.
pub open spec fn room_labels(gs: Seq<GroupView>) -> Seq<Seq<char>> {
    gs.map_values(|g: GroupView| id_label(g.id))
}

impl View for ChatRooms {
    type V = RoomsView;

    closed spec fn view(&self) -> RoomsView {
        RoomsView {
            rooms: self.rooms@.map_values(|s: String| s@),
            groups: group_views(self.groups@),
            focused: self.focused as int,
        }
    }
}

/// Whether `key` is the control chord of character `c`.
pub open spec fn is_ctrl(key: Key, c: char) -> bool {
    key.ctrl && key.code == KeyCode::Char(c)
}

/// Whether `r` announces that group `g` is now in focus.
pub open spec fn focuses(r: Vec<Effect>, g: GroupView) -> bool {
    r@.len() == 1 && (r@[0] matches Effect::Event(Action::SetFocusedGroup(h)) && h@ == g)
}

impl ChatRooms {
    /// The rooms list at start: the system channel, in focus.
    pub fn new() -> (r: Self)
        ensures
            r.inv(),
            r@.rooms == seq!["xchat"@],
            r@.groups == seq![system_group()],
            r@.focused == 0,
    {
        let g = Group::new_fake(0);
        let r = Self { rooms: vec![String::from_str("xchat")], groups: vec![g], focused: 0 };
        proof {
            assert(r@.rooms =~= seq!["xchat"@]);
            assert(r@.groups =~= seq![g@]);
        }
        r
    }

    pub fn rooms(&self) -> (r: &Vec<String>)
        ensures
            r@.map_values(|s: String| s@) == self@.rooms,
    {
        &self.rooms
    }

    pub fn focused(&self) -> (r: usize)
        ensures
            r == self@.focused,
    {
        self.focused
    }

    fn focus_next(&mut self)
        requires
            old(self).inv(),
        ensures
            final(self).inv(),
            final(self).rooms == old(self).rooms,
            final(self).groups == old(self).groups,
            final(self).focused == if old(self).focused + 1 < old(self).groups@.len() {
                old(self).focused + 1
            } else {
                old(self).focused as int
            },
    {
        if self.focused < self.groups.len() - 1 {
            self.focused = self.focused + 1;
        }
    }

    fn focus_previous(&mut self)
        requires
            old(self).inv(),
        ensures
            final(self).inv(),
            final(self).rooms == old(self).rooms,
            final(self).groups == old(self).groups,
            final(self).focused == if old(self).focused > 0 {
                old(self).focused - 1
            } else {
                0
            },
    {
        self.focused = self.focused.saturating_sub(1);
    }

    /// Control-n and control-p move the focus down and up the list, and
    /// announce the newly focused group.
    fn handle_key_event(&mut self, key: Key) -> (r: Vec<Effect>)
        requires
            old(self).inv(),
        ensures
            final(self).inv(),
            final(self).rooms == old(self).rooms,
            final(self).groups == old(self).groups,
            is_ctrl(key, 'n') ==> final(self).focused == (if old(self).focused + 1 < old(self).groups@.len() {
                old(self).focused + 1
            } else {
                old(self).focused as int
            }) && focuses(r, final(self).groups@[final(self).focused as int]@),
            is_ctrl(key, 'p') ==> final(self).focused == (if old(self).focused > 0 {
                old(self).focused - 1
            } else {
                0
            }) && focuses(r, final(self).groups@[final(self).focused as int]@),
            !is_ctrl(key, 'n') && !is_ctrl(key, 'p') ==> final(self).focused == old(self).focused && r@.len() == 0,
    {
        let mut effects: Vec<Effect> = Vec::new();
        if key.ctrl {
            match key.code {
                KeyCode::Char('n') => {
                    self.focus_next();
                    effects.push(Effect::Event(Action::SetFocusedGroup(self.groups[self.focused].duplicate())));
                },
                KeyCode::Char('p') => {
                    self.focus_previous();
                    effects.push(Effect::Event(Action::SetFocusedGroup(self.groups[self.focused].duplicate())));
                },
                _ => {},
            }
        }
        effects
    }
}

impl Store for ChatRooms {
    open spec fn inv(&self) -> bool {
        &&& self@.groups.len() >= 1
        &&& self@.rooms.len() == self@.groups.len()
        &&& 0 <= self@.focused < self@.groups.len()
    }

    open spec fn updated(before: Self, action: Action, after: Self, r: Result<Vec<Effect>, StoreError>) -> bool {
        r matches Ok(v) && match action {
            Action::KeyPress(key) => {
                &&& after@.rooms == before@.rooms
                &&& after@.groups == before@.groups
                &&& is_ctrl(key, 'n') ==> after@.focused == (if before@.focused + 1 < before@.groups.len() {
                    before@.focused + 1
                } else {
                    before@.focused
                }) && focuses(v, after@.groups[after@.focused])
                &&& is_ctrl(key, 'p') ==> after@.focused == (if before@.focused > 0 {
                    before@.focused - 1
                } else {
                    0
                }) && focuses(v, after@.groups[after@.focused])
                &&& !is_ctrl(key, 'n') && !is_ctrl(key, 'p') ==> after@.focused == before@.focused && v@.len() == 0
            },
            Action::NewGroups(gs) => {
                &&& after@.groups == before@.groups + group_views(gs@)
                &&& after@.rooms == before@.rooms + room_labels(group_views(gs@))
                &&& after@.focused == before@.focused
                &&& v@.len() == 0
            },
            _ => after == before && v@.len() == 0,
        }
    }

    fn update(&mut self, action: &Action) -> (r: Result<Vec<Effect>, StoreError>) {
        match action {
            Action::KeyPress(key) => {
                let effects = self.handle_key_event(*key);
                Ok(effects)
            },
            Action::NewGroups(groups) => {
                let ghost g0 = self@;
                let mut i: usize = 0;
                while i < groups.len()
                    invariant
                        i <= groups@.len(),
                        self.inv(),
                        self.focused == g0.focused,
                        self@.groups == g0.groups + group_views(groups@).subrange(0, i as int),
                        self@.rooms == g0.rooms + room_labels(group_views(groups@).subrange(0, i as int)),
                    decreases groups@.len() - i,
                {
                    let ghost before = self@;
                    let g = groups[i].duplicate();
                    let label = GroupIdWrapper::from(groups[i].id().clone()).label();
                    proof {
                        assert(groups[i as int]@.id =~= g@.id);
                    }
                    self.groups.push(g);
                    self.rooms.push(label);
                    proof {
                        let gv = group_views(groups@);
                        assert(gv.subrange(0, i + 1) =~= gv.subrange(0, i as int).push(g@));
                        assert(self@.groups =~= before.groups.push(g@));
                        assert(room_labels(gv.subrange(0, i + 1)) =~= room_labels(gv.subrange(0, i as int)).push(
                            id_label(g@.id),
                        ));
                        assert(self@.rooms =~= before.rooms.push(label@));
                    }
                    i = i + 1;
                }
                proof {
                    assert(group_views(groups@).subrange(0, i as int) =~= group_views(groups@));
                }
                Ok(Vec::new())
            },
            _ => Ok(Vec::new()),
        }
    }
}

/// The input box: who the typed text goes to. The text itself is edited by
/// the terminal side, which the box tells what to do with each key.
pub struct InputBox {
    focused_group: Group,
}

/// The text of `lines`, concatenated in order.
pub open spec fn joined(lines: Seq<Seq<char>>) -> Seq<char>
    decreases lines.len(),
{
    if lines.len() == 0 {
        Seq::empty()
    } else {
        joined(lines.drop_last()) + lines.last()
    }
}

/// The editor holds no text: one empty line, or none.
pub open spec fn is_blank(lines: Seq<Seq<char>>) -> bool {
    lines.len() == 0 || (lines.len() == 1 && lines[0].len() == 0)
}

/// Whether `lines` is a command line: its first line starts with a slash.
pub open spec fn is_command_line(lines: Seq<Seq<char>>) -> bool {
    lines.len() > 0 && lines[0].len() > 0 && lines[0][0] == '/'
}

impl InputBox {
    /// The group that typed text goes to.
    pub closed spec fn spec_focused_group(&self) -> Group {
        self.focused_group
    }

    /// An input box addressed to the system channel.
    pub fn new() -> (r: Self)
        ensures
            r.inv(),
            r.spec_focused_group()@ == system_group(),
    {
        InputBox { focused_group: Group::new_fake(0) }
    }

    pub fn focused_group(&self) -> (r: &Group)
        ensures
            *r == self.spec_focused_group(),
    {
        &self.focused_group
    }

    /// What submitting `lines` does. A first line that starts with a slash is a
    /// command, parsed without the slash; otherwise the text, unless blank, is
    /// sent to the focused group, its lines concatenated in order.
    pub fn handle_enter(&self, lines: &Vec<String>) -> (r: Result<Option<Effect>, CommandError>)
        ensures
            ({
                let ls = lines@.map_values(|s: String| s@);
                if is_command_line(ls) {
                    let rest = ls[0].subrange(1, ls[0].len() as int);
                    match r {
                        Ok(Some(Effect::Command(c))) => parses_to(rest, self.spec_focused_group()@, Ok(c)),
                        Err(e) => parses_to(rest, self.spec_focused_group()@, Err(e)),
                        _ => false,
                    }
                } else if is_blank(ls) {
                    r matches Ok(None)
                } else {
                    r matches Ok(Some(Effect::Xmtp(XMTPAction::SendMessage(g, t)))) && g@ == self.spec_focused_group()@
                        && t@ == joined(ls)
                }
            }),
    {
        let ghost ls = lines@.map_values(|s: String| s@);
        let n = lines.len();
        if n > 0 {
            let first = lines[0].as_str();
            let len = first.unicode_len();
            if len > 0 && first.get_char(0) == '/' {
                let rest = first.substring_char(1, len);
                return match CommandAction::from_string(String::from_str(rest), &self.focused_group) {
                    Ok(c) => Ok(Some(Effect::Command(c))),
                    Err(e) => Err(e),
                };
            }
        }
        if n == 0 || (n == 1 && lines[0].as_str().unicode_len() == 0) {
            return Ok(None);
        }
        let mut text = String::new();
        let mut i: usize = 0;
        while i < n
            invariant
                n == lines@.len(),
                i <= n,
                ls == lines@.map_values(|s: String| s@),
                text@ == joined(ls.subrange(0, i as int)),
            decreases n - i,
        {
            proof {
                assert(ls.subrange(0, i + 1).drop_last() =~= ls.subrange(0, i as int));
            }
            text.append(lines[i].as_str());
            i = i + 1;
        }
        proof {
            assert(ls.subrange(0, n as int) =~= ls);
        }
        Ok(Some(Effect::Xmtp(XMTPAction::SendMessage(self.focused_group.duplicate(), text))))
    }
}

impl Store for InputBox {
    open spec fn inv(&self) -> bool {
        true
    }

    open spec fn updated(before: Self, action: Action, after: Self, r: Result<Vec<Effect>, StoreError>) -> bool {
        r matches Ok(v) && match action {
            Action::KeyPress(key) => after == before && v@.len() == 1 && if key.code == KeyCode::Enter {
                if key.ctrl {
                    v@[0] is InsertNewline
                } else {
                    v@[0] is SubmitInput
                }
            } else {
                v@[0] == Effect::EditInput(key)
            },
            Action::SetFocusedGroup(g) => after.spec_focused_group()@ == g@ && v@.len() == 0,
            _ => after == before && v@.len() == 0,
        }
    }

    fn update(&mut self, action: &Action) -> (r: Result<Vec<Effect>, StoreError>) {
        match action {
            Action::KeyPress(key) => {
                let e = match key.code {
                    KeyCode::Enter => if key.ctrl {
                        Effect::InsertNewline
                    } else {
                        Effect::SubmitInput
                    },
                    _ => Effect::EditInput(*key),
                };
                Ok(vec![e])
            },
            Action::SetFocusedGroup(group) => {
                self.focused_group = group.duplicate();
                Ok(Vec::new())
            },
            _ => Ok(Vec::new()),
        }
    }
}

} // verus!
