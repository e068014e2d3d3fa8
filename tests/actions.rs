use xchat::commands::{CommandAction, CommandError, Commands, ListCommand};
use xchat::dispatch::{Action, Dispatcher, Effect, Key, KeyCode, Store, StoreError};
use xchat::message::{count_lines, GroupMessages, Message, MessageKind, Messages, StoredMessage};
use xchat::pages::{ChatPage, Pane};
use xchat::poller::NewGroupsOrMessages;
use xchat::types::{Group, GroupIdWrapper};
use xchat::views::{ChatArea, ChatRooms, InputBox};
use xchat::xmtp::{Step, XMTPAction, XMTP};

fn key(code: KeyCode, ctrl: bool) -> Key {
    Key { code, ctrl, alt: false, shift: false }
}

fn app_msg(user: &str, text: &str, kind: MessageKind) -> Message {
    Message { user: user.to_string(), kind, sent_at: 1, text: text.to_string() }
}

#[test]
fn send_to_placeholder_stays_local() {
    let step = XMTP::plan(XMTPAction::SendMessage(Group::new_fake(0), "hello".to_string()));
    assert_eq!(
        step,
        Step::Emit(Action::FakeMessage(
            vec![0],
            "xchat".to_string(),
            "Invalid Buffer, cannot send MLS messages to this buffer.".to_string()
        ))
    );
    let real = Group::new(vec![1, 2, 3], 1, 1);
    let step = XMTP::plan(XMTPAction::SendMessage(real.clone(), "hello".to_string()));
    assert_eq!(step, Step::Call(XMTPAction::SendMessage(real, "hello".to_string())));
}

#[test]
fn invite_gets_prefixed_identity() {
    let g = Group::new(vec![1, 2, 3], 1, 1);
    let step = XMTP::plan(XMTPAction::Invite(g.clone(), "abc".to_string()));
    assert_eq!(step, Step::Call(XMTPAction::Invite(g.clone(), "0xabc".to_string())));
    let step = XMTP::plan(XMTPAction::Invite(g.clone(), "0xabc".to_string()));
    assert_eq!(step, Step::Call(XMTPAction::Invite(g, "0xabc".to_string())));
    assert_eq!(XMTP::with_prefix(String::new()), "0x");
}

#[test]
fn created_group_becomes_new_groups() {
    let g = Group::new(vec![7, 7, 7], 3, 3);
    assert_eq!(XMTP::created(g.clone()), Action::NewGroups(vec![g.clone()]));
    assert_eq!(XMTP::translate(NewGroupsOrMessages::Groups(vec![g.clone()])), Some(Action::NewGroups(vec![g])));
    assert_eq!(XMTP::translate(NewGroupsOrMessages::Nothing), None);
}

#[test]
fn info_message_has_hex_fields() {
    let a = XMTP::welcome_message(&vec![0xab, 0x01], Some("/tmp/db".to_string()), &vec![0xff]);
    let expected = "-------------- Information --------------\nWallet Address: 0xab01\nDatabase: /tmp/db\nInstallation Public Key: ff";
    assert_eq!(a, Action::FakeMessage(vec![0], "xchat".to_string(), expected.to_string()));
    let b = XMTP::welcome_message(&vec![], None, &vec![]);
    match b {
        Action::FakeMessage(_, _, text) => assert!(text.contains("Database: not displayable (not utf8?)")),
        other => panic!("unexpected {:?}", other),
    }
}

#[test]
fn parses_commands() {
    let g = Group::new_fake(0);
    assert_eq!(CommandAction::from_string("help".to_string(), &g), Ok(CommandAction::Help));
    assert_eq!(CommandAction::from_string("quit now".to_string(), &g), Ok(CommandAction::Quit));
    assert_eq!(CommandAction::from_string("list groups".to_string(), &g), Ok(CommandAction::List(ListCommand::Users)));
    assert_eq!(CommandAction::from_string("me".to_string(), &g), Ok(CommandAction::Me));
    assert_eq!(CommandAction::from_string("create".to_string(), &g), Ok(CommandAction::Create));
    assert_eq!(
        CommandAction::from_string("invite bob extra".to_string(), &g),
        Ok(CommandAction::Invite(g.clone(), "bob".to_string()))
    );
    assert_eq!(CommandAction::from_string("invite".to_string(), &g), Err(CommandError::MissingInvitee));
    assert_eq!(
        CommandAction::from_string("invite ".to_string(), &g),
        Ok(CommandAction::Invite(g.clone(), String::new()))
    );
    assert_eq!(CommandAction::from_string("dance now".to_string(), &g), Ok(CommandAction::Unknown("dance".to_string())));
    assert_eq!(
        CommandError::MissingInvitee.message(),
        "`/invite` requires indicating the wallet address of the user to invite"
    );
}

#[test]
fn commands_become_effects() {
    let unknown = Commands::handle(CommandAction::Unknown("dance".to_string()));
    assert_eq!(
        unknown,
        Some(Effect::Event(Action::FakeMessage(
            vec![0],
            "xchat".to_string(),
            "Unknown command: /dance. use `/help` to get a list of commands".to_string()
        )))
    );
    assert_eq!(Commands::handle(CommandAction::Quit), Some(Effect::Event(Action::Quit)));
    assert_eq!(Commands::handle(CommandAction::Me), Some(Effect::Xmtp(XMTPAction::Info)));
    assert_eq!(Commands::handle(CommandAction::Join), None);
    match Commands::handle(CommandAction::Help) {
        Some(Effect::Event(Action::FakeMessage(id, user, text))) => {
            assert_eq!(id, vec![0]);
            assert_eq!(user, "xchat");
            assert!(text.starts_with("xChat Help Message\n    /help"));
        }
        other => panic!("unexpected {:?}", other),
    }
}

#[test]
fn group_labels() {
    assert_eq!(GroupIdWrapper(vec![1, 22, 3, 44, 255]).label(), "122...344");
    assert_eq!(GroupIdWrapper::from(vec![7]).label(), "7");
    assert_eq!(GroupIdWrapper(vec![100, 0, 9]).label(), "1000...1000");
}

#[test]
fn counts_lines_like_str_lines() {
    assert_eq!(count_lines(""), 0);
    assert_eq!(count_lines("a"), 1);
    assert_eq!(count_lines("a\n"), 1);
    assert_eq!(count_lines("a\nb"), 2);
    assert_eq!(count_lines("\n\n"), 2);
}

#[test]
fn stored_message_sender_is_shortened() {
    let stored = StoredMessage {
        group_id: vec![1],
        sender_inbox_id: "abcdefghij".to_string(),
        kind: MessageKind::Application,
        sent_at_ns: 42,
        text: "hey".to_string(),
    };
    let m = Message::from_stored(stored);
    assert_eq!(m.user, "abcd...ghij ");
    assert_eq!(m.sent_at, 42);
    assert_eq!(m.text, "hey");
}

#[test]
fn add_labels_user_column() {
    let mut store = Messages::new();
    store.add(&vec![3], app_msg("bob", "one\ntwo", MessageKind::Application));
    assert_eq!(store.inner.len(), 1);
    assert_eq!(store.inner[0].messages[0].user, "bob:\n\n");
}

#[test]
fn replayed_batch_is_appended_again() {
    let mut store = Messages::new();
    store.add_groups(&vec![Group::new(vec![1, 1, 1], 1, 1)]);
    let batches = vec![GroupMessages {
        id: vec![1, 1, 1],
        messages: vec![
            app_msg("a", "first", MessageKind::Application),
            app_msg("a", "joined", MessageKind::MembershipChange),
            app_msg("a", "second", MessageKind::Application),
        ],
    }];
    store.add_group_messages(&batches);
    store.add_group_messages(&batches);
    let texts: Vec<String> = store.inner[0].messages.iter().map(|m| m.text.clone()).collect();
    assert_eq!(texts, vec!["first", "second", "first", "second"]);
    store.add_groups(&vec![Group::new(vec![1, 1, 1], 1, 1)]);
    assert_eq!(store.inner.len(), 1);
}

#[test]
fn chat_area_starts_with_welcome() {
    let area = ChatArea::default();
    let (users, texts) = area.visible();
    assert_eq!(users.len(), 2);
    assert_eq!(users[1], "xchat:\n");
    assert_eq!(texts[1], "Hello! Welcome to xChat. Use the `/help` command to get started!");
}

#[test]
fn chat_area_follows_focus_and_messages() {
    let mut area = ChatArea::default();
    let g = Group::new(vec![2, 2, 2], 1, 1);
    area.update(&Action::NewGroups(vec![g.clone()])).unwrap();
    area.update(&Action::SetFocusedGroup(g.clone())).unwrap();
    assert_eq!(area.visible().0.len(), 0);
    let batches = vec![GroupMessages { id: vec![2, 2, 2], messages: vec![app_msg("x", "yo", MessageKind::Application)] }];
    area.update(&Action::ReceiveMessages(batches)).unwrap();
    let (users, texts) = area.visible();
    assert_eq!(users, vec!["x".to_string()]);
    assert_eq!(texts, vec!["yo".to_string()]);
    area.update(&Action::SetFocusedGroup(Group::new(vec![8, 8, 8], 1, 1))).unwrap();
    assert_eq!(area.visible().0.len(), 0);
}

#[test]
fn rooms_move_focus() {
    let mut rooms = ChatRooms::new();
    let g = Group::new(vec![1, 2, 3, 4], 1, 1);
    rooms.update(&Action::NewGroups(vec![g.clone()])).unwrap();
    assert_eq!(rooms.rooms(), &vec!["xchat".to_string(), "12...23".to_string()]);
    let effects = rooms.update(&Action::KeyPress(key(KeyCode::Char('n'), true))).unwrap();
    assert_eq!(effects, vec![Effect::Event(Action::SetFocusedGroup(g.clone()))]);
    assert_eq!(rooms.focused(), 1);
    let effects = rooms.update(&Action::KeyPress(key(KeyCode::Char('n'), true))).unwrap();
    assert_eq!(effects, vec![Effect::Event(Action::SetFocusedGroup(g))]);
    assert_eq!(rooms.focused(), 1);
    let effects = rooms.update(&Action::KeyPress(key(KeyCode::Char('p'), true))).unwrap();
    assert_eq!(effects, vec![Effect::Event(Action::SetFocusedGroup(Group::new_fake(0)))]);
    assert_eq!(rooms.focused(), 0);
    let effects = rooms.update(&Action::KeyPress(key(KeyCode::Char('n'), false))).unwrap();
    assert!(effects.is_empty());
}

#[test]
fn input_box_submits() {
    let mut input = InputBox::new();
    assert_eq!(input.update(&Action::KeyPress(key(KeyCode::Enter, false))).unwrap(), vec![Effect::SubmitInput]);
    assert_eq!(input.update(&Action::KeyPress(key(KeyCode::Enter, true))).unwrap(), vec![Effect::InsertNewline]);
    let k = key(KeyCode::Char('x'), false);
    assert_eq!(input.update(&Action::KeyPress(k)).unwrap(), vec![Effect::EditInput(k)]);
    let fake = Group::new_fake(0);
    assert_eq!(
        input.handle_enter(&vec!["/invite bob".to_string()]),
        Ok(Some(Effect::Command(CommandAction::Invite(fake.clone(), "bob".to_string()))))
    );
    assert_eq!(input.handle_enter(&vec!["/invite".to_string()]), Err(CommandError::MissingInvitee));
    assert_eq!(input.handle_enter(&vec![String::new()]), Ok(None));
    assert_eq!(
        input.handle_enter(&vec!["hello".to_string(), "world".to_string()]),
        Ok(Some(Effect::Xmtp(XMTPAction::SendMessage(fake, "helloworld".to_string()))))
    );
    let g = Group::new(vec![3, 3, 3], 1, 1);
    input.update(&Action::SetFocusedGroup(g.clone())).unwrap();
    assert_eq!(input.focused_group(), &g);
}

struct Failing;

impl Store for Failing {
    fn inv(&self) -> bool {
        true
    }

    fn updated(_before: Self, _action: Action, _after: Self, _r: Result<Vec<Effect>, StoreError>) -> bool {
        true
    }

    fn update(&mut self, _action: &Action) -> Result<Vec<Effect>, StoreError> {
        Err(StoreError::Command(CommandError::MissingInvitee))
    }
}

struct Counting {
    seen: usize,
}

impl Store for Counting {
    fn inv(&self) -> bool {
        true
    }

    fn updated(_before: Self, _action: Action, _after: Self, _r: Result<Vec<Effect>, StoreError>) -> bool {
        true
    }

    fn update(&mut self, _action: &Action) -> Result<Vec<Effect>, StoreError> {
        self.seen += 1;
        Ok(vec![])
    }
}

enum Mock {
    Bad(Failing),
    Good(Counting),
}

impl Store for Mock {
    fn inv(&self) -> bool {
        true
    }

    fn updated(_before: Self, _action: Action, _after: Self, _r: Result<Vec<Effect>, StoreError>) -> bool {
        true
    }

    fn update(&mut self, action: &Action) -> Result<Vec<Effect>, StoreError> {
        match self {
            Mock::Bad(s) => s.update(action),
            Mock::Good(s) => s.update(action),
        }
    }
}

#[test]
fn failing_store_does_not_stop_others() {
    let mut stores = vec![Mock::Bad(Failing), Mock::Good(Counting { seen: 0 })];
    let out = Dispatcher::dispatch(&mut stores, Action::Tick);
    assert_eq!(out.action, Action::Noop);
    assert!(out.results[0].is_err());
    assert!(out.results[1].is_ok());
    match &stores[1] {
        Mock::Good(c) => assert_eq!(c.seen, 1),
        Mock::Bad(_) => panic!("order changed"),
    }
    let quit = Dispatcher::dispatch(&mut stores, Action::Quit);
    assert_eq!(quit.action, Action::Quit);
    assert!(quit.results.is_empty());
    match &stores[1] {
        Mock::Good(c) => assert_eq!(c.seen, 1),
        Mock::Bad(_) => panic!("order changed"),
    }
}

#[test]
fn page_dispatches_to_every_view() {
    let mut page = ChatPage::new();
    let g = Group::new(vec![4, 5, 6], 1, 1);
    let out = page.dispatch(Action::NewGroups(vec![g.clone()]));
    assert_eq!(out.action, Action::Noop);
    assert_eq!(out.results.len(), 3);
    match &page.stores()[2] {
        Pane::Rooms(r) => assert_eq!(r.rooms().len(), 2),
        _ => panic!("rooms list missing"),
    }
    match &page.stores()[1] {
        Pane::Area(a) => assert_eq!(a.messages().inner.len(), 2),
        _ => panic!("chat area missing"),
    }
    assert_eq!(page.dispatch(Action::Quit).action, Action::Quit);
}

#[test]
fn conversions_wrap_variants() {
    assert_eq!(Action::from(CommandAction::Me), Action::Command(CommandAction::Me));
    assert_eq!(CommandAction::from(ListCommand::Group), CommandAction::List(ListCommand::Group));
    assert_eq!(Action::from(XMTPAction::Info), Action::XMTP(XMTPAction::Info));
}

#[test]
fn command_error_becomes_system_message() {
    assert_eq!(
        Commands::report_error(CommandError::MissingInvitee),
        Action::FakeMessage(
            vec![0],
            "xchat".to_string(),
            "`/invite` requires indicating the wallet address of the user to invite".to_string()
        )
    );
}

#[test]
fn page_starts_on_system_channel() {
    let page = ChatPage::new();
    match &page.stores()[0] {
        Pane::Input(b) => assert_eq!(b.focused_group(), &Group::new_fake(0)),
        _ => panic!("input box missing"),
    }
    match &page.stores()[2] {
        Pane::Rooms(r) => {
            assert_eq!(r.rooms(), &vec!["xchat".to_string()]);
            assert_eq!(r.focused(), 0);
        }
        _ => panic!("rooms list missing"),
    }
}
