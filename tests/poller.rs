use xchat::message::{GroupMessages, Message, MessageKind};
use xchat::poller::{MessagesStream, NewGroupsOrMessages};
use xchat::dispatch::Action;
use xchat::types::Group;
use xchat::xmtp::XMTP;

fn msg(text: &str, sent_at: i64) -> Message {
    Message { user: "u".to_string(), kind: MessageKind::Application, sent_at, text: text.to_string() }
}

fn batch(id: Vec<u8>, msgs: Vec<Message>) -> GroupMessages {
    GroupMessages { id, messages: msgs }
}

#[test]
fn new_group_then_message_end_to_end() {
    let mut poller = MessagesStream::new();
    let g1 = Group::new(vec![1, 2, 3], 10, 10);
    let first = poller.poll_xmtp(vec![g1.clone()], vec![]);
    assert_eq!(first, NewGroupsOrMessages::Groups(vec![g1.clone()]));
    assert_eq!(poller.last_created_at(), Some(10));
    assert_eq!(XMTP::translate(first), Some(Action::NewGroups(vec![g1.clone()])));
    let second = poller.poll_xmtp(vec![], vec![batch(vec![1, 2, 3], vec![msg("hi", 20)])]);
    match XMTP::translate(second) {
        Some(Action::ReceiveMessages(m)) => {
            assert_eq!(m.len(), 1);
            assert_eq!(m[0].id, vec![1, 2, 3]);
            assert_eq!(m[0].messages.len(), 1);
            assert_eq!(m[0].messages[0].text, "hi");
        }
        other => panic!("expected received messages, got {:?}", other),
    }
    assert_eq!(poller.groups()[0].last_sent_at, 20);
}

#[test]
fn group_is_emitted_once() {
    let mut poller = MessagesStream::new();
    let g = Group::new(vec![9, 9, 9], 5, 5);
    let first = poller.poll_xmtp(vec![g.clone(), g.clone()], vec![]);
    assert_eq!(first, NewGroupsOrMessages::Groups(vec![g.clone()]));
    let again = poller.poll_xmtp(vec![g.clone()], vec![]);
    assert_eq!(again, NewGroupsOrMessages::Nothing);
    assert_eq!(poller.groups().len(), 1);
}

#[test]
fn old_messages_are_not_emitted_again() {
    let mut poller = MessagesStream::new();
    let g = Group::new(vec![4, 4, 4], 1, 1);
    poller.poll_xmtp(vec![g], vec![]);
    let listing = vec![batch(vec![4, 4, 4], vec![msg("a", 3), msg("b", 7)])];
    let first = poller.poll_xmtp(vec![], listing.clone());
    match first {
        NewGroupsOrMessages::Messages(m) => assert_eq!(m[0].messages.len(), 2),
        other => panic!("expected messages, got {:?}", other),
    }
    assert_eq!(poller.groups()[0].last_sent_at, 7);
    let replayed = poller.poll_xmtp(vec![], listing);
    assert_eq!(replayed, NewGroupsOrMessages::Nothing);
    let mixed = poller.poll_xmtp(vec![], vec![batch(vec![4, 4, 4], vec![msg("old", 7), msg("new", 9)])]);
    match mixed {
        NewGroupsOrMessages::Messages(m) => {
            assert_eq!(m[0].messages.len(), 1);
            assert_eq!(m[0].messages[0].text, "new");
        }
        other => panic!("expected messages, got {:?}", other),
    }
    assert_eq!(poller.groups()[0].last_sent_at, 9);
}

#[test]
fn groups_take_priority_over_messages() {
    let mut poller = MessagesStream::new();
    let g = Group::new(vec![5, 6, 7], 30, 30);
    let listing = vec![batch(vec![5, 6, 7], vec![msg("early", 40)])];
    let first = poller.poll_xmtp(vec![g.clone()], listing.clone());
    assert_eq!(first, NewGroupsOrMessages::Groups(vec![g]));
    assert_eq!(poller.groups()[0].last_sent_at, 30);
    match poller.poll_xmtp(vec![], listing) {
        NewGroupsOrMessages::Messages(m) => assert_eq!(m[0].messages[0].text, "early"),
        other => panic!("expected messages, got {:?}", other),
    }
}

#[test]
fn messages_for_unknown_groups_are_ignored() {
    let mut poller = MessagesStream::new();
    let out = poller.poll_xmtp(vec![], vec![batch(vec![1], vec![msg("x", 1)])]);
    assert_eq!(out, NewGroupsOrMessages::Nothing);
    assert_eq!(poller.last_created_at(), None);
}

#[test]
fn group_watermark_is_latest_creation_time() {
    let mut poller = MessagesStream::new();
    poller.poll_xmtp(vec![Group::new(vec![1, 1, 1], 50, 50), Group::new(vec![2, 2, 2], 20, 20)], vec![]);
    assert_eq!(poller.last_created_at(), Some(50));
    poller.poll_xmtp(vec![Group::new(vec![3, 3, 3], 60, 60)], vec![]);
    assert_eq!(poller.last_created_at(), Some(60));
    assert_eq!(poller.groups().len(), 3);
}

#[test]
fn empty_batches_are_skipped() {
    let mut poller = MessagesStream::new();
    poller.poll_xmtp(vec![Group::new(vec![1, 1, 1], 1, 1), Group::new(vec![2, 2, 2], 2, 2)], vec![]);
    let out = poller.poll_xmtp(
        vec![],
        vec![batch(vec![1, 1, 1], vec![]), batch(vec![2, 2, 2], vec![msg("m", 5)])],
    );
    match out {
        NewGroupsOrMessages::Messages(m) => {
            assert_eq!(m.len(), 1);
            assert_eq!(m[0].id, vec![2, 2, 2]);
        }
        other => panic!("expected messages, got {:?}", other),
    }
    assert_eq!(poller.groups()[0].last_sent_at, 1);
    assert_eq!(poller.groups()[1].last_sent_at, 5);
}

#[test]
fn group_watermark_follows_negative_times() {
    let mut poller = MessagesStream::new();
    let g = Group::new(vec![1, 2, 3], -5, -5);
    assert_eq!(poller.poll_xmtp(vec![g.clone()], vec![]), NewGroupsOrMessages::Groups(vec![g]));
    assert_eq!(poller.last_created_at(), Some(-5));
}

#[test]
fn groups_older_than_watermark_are_skipped() {
    let mut poller = MessagesStream::new();
    poller.poll_xmtp(vec![Group::new(vec![1, 1, 1], 10, 10)], vec![]);
    let late = poller.poll_xmtp(vec![Group::new(vec![2, 2, 2], 10, 10), Group::new(vec![3, 3, 3], 4, 4)], vec![]);
    assert_eq!(late, NewGroupsOrMessages::Nothing);
    assert_eq!(poller.groups().len(), 1);
    assert_eq!(poller.last_created_at(), Some(10));
}
