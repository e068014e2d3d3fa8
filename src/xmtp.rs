//! The backend loop's decisions: which operations reach the backend, in what
//! form, and which actions their outcomes become.
use vstd::prelude::*;

use crate::commands::{is_system_message, Commands};
use crate::dispatch::Action;
use crate::poller::{group_views, NewGroupsOrMessages};
use crate::message::batch_views;
use crate::types::Group;

verus! {

/// Operations for the backend loop.
#[derive(Clone, Debug, PartialEq, Eq)]
pub enum XMTPAction {
    /// Send a message to a group.
    SendMessage(Group, String),
    CreateGroup,
    /// Invite a user to a group; only its admin or creator can.
    Invite(Group, String),
    /// Report information about the current user.
    Info,
}

impl From<XMTPAction> for Action {
    fn from(action: XMTPAction) -> (r: Action) {
        Action::XMTP(action)
    }
}

impl vstd::std_specs::convert::FromSpecImpl<XMTPAction> for Action {
    open spec fn obeys_from_spec() -> bool {
        true
    }

    open spec fn from_spec(v: XMTPAction) -> Action {
        Action::XMTP(v)
    }
}

/// What the backend loop does with an operation.
#[derive(Clone, Debug, PartialEq, Eq)]
pub enum Step {
    /// Answer locally with this action; the backend is not called.
    Emit(Action),
    /// Carry out this operation against the backend.
    Call(XMTPAction),
}

/// The text refused sends to a placeholder group get.
pub open spec fn placeholder_text() -> Seq<char> {
    "Invalid Buffer, cannot send MLS messages to this buffer."@
}

/// `user` with the `0x` prefix that the backend requires of an identity.
pub open spec fn prefixed(user: Seq<char>) -> Seq<char> {
    if user.len() >= 2 && user[0] == '0' && user[1] == 'x' {
        user
    } else {
        "0x"@ + user
    }
}

/// The lower-case hexadecimal digit of `n`, below sixteen.
pub open spec fn hex_digit(n: u8) -> char {
    if n < 10 {
        (('0' as u8) + n) as char
    } else {
        (('a' as u8) + n - 10) as char
    }
}

/// Two lower-case hexadecimal digits per byte of `b`, high digit first.
pub open spec fn hex_of(b: Seq<u8>) -> Seq<char>
    decreases b.len(),
{
    if b.len() == 0 {
        Seq::empty()
    } else {
        hex_of(b.drop_last()) + seq![hex_digit(b.last() / 16), hex_digit(b.last() % 16)]
    }
}

/// Relies on `hex::encode`: each byte becomes two lower-case hexadecimal
/// digits, the high one first, in the order of the bytes.
#[verifier::external_body]
fn encode_hex(bytes: &Vec<u8>) -> (r: String)
    ensures
        r@ == hex_of(bytes@),
{
    hex::encode(bytes)
}

/// The information message, from the wallet address, the database path when
/// it is valid text, and the installation key.
pub open spec fn info_text(address: Seq<u8>, db: Option<Seq<char>>, key: Seq<u8>) -> Seq<char> {
    "-------------- Information --------------"@ + "\nWallet Address: 0x"@ + hex_of(address)
        + "\nDatabase: "@ + match db {
        Some(p) => p,
        None => "not displayable (not utf8?)"@,
    } + "\nInstallation Public Key: "@ + hex_of(key)
}

/// The backend loop's decisions.
pub struct XMTP;

impl XMTP {
    /// Decides what to do with `action`. A send to a placeholder group is
    /// answered with a system message in that group and never reaches the
    /// backend; an invitation gets the `0x` prefix on its identity.
    pub fn plan(action: XMTPAction) -> (r: Step)
        ensures
            match action {
                XMTPAction::SendMessage(g, m) => if g@.is_fake {
                    r matches Step::Emit(Action::FakeMessage(id, user, text)) && id@ == g@.id && user@ == "xchat"@
                        && text@ == placeholder_text()
                } else {
                    r matches Step::Call(XMTPAction::SendMessage(h, n)) && h@ == g@ && n == m
                },
                XMTPAction::CreateGroup => r matches Step::Call(XMTPAction::CreateGroup),
                XMTPAction::Invite(g, u) => r matches Step::Call(XMTPAction::Invite(h, v)) && h@ == g@ && v@
                    == prefixed(u@),
                XMTPAction::Info => r matches Step::Call(XMTPAction::Info),
            },
    {
        match action {
            XMTPAction::SendMessage(group, m) => {
                if group.is_fake() {
                    let user = String::from_str("xchat");
                    let text = String::from_str("Invalid Buffer, cannot send MLS messages to this buffer.");
                    Step::Emit(Action::FakeMessage(group.id().clone(), user, text))
                } else {
                    Step::Call(XMTPAction::SendMessage(group, m))
                }
            },
            XMTPAction::CreateGroup => Step::Call(XMTPAction::CreateGroup),
            XMTPAction::Invite(group, user) => Step::Call(XMTPAction::Invite(group, Self::with_prefix(user))),
            XMTPAction::Info => Step::Call(XMTPAction::Info),
        }
    }

    /// `user` with the `0x` prefix, added only when missing.
    pub fn with_prefix(user: String) -> (r: String)
        ensures
            r@ == prefixed(user@),
    {
        let s = user.as_str();
        let n = s.unicode_len();
        if n >= 2 && s.get_char(0) == '0' && s.get_char(1) == 'x' {
            user
        } else {
            let mut r = String::from_str("0x");
            r.append(s);
            r
        }
    }

    /// A created group becomes known the same way as a discovered one.
    pub fn created(group: Group) -> (r: Action)
        ensures
            r matches Action::NewGroups(gs) && group_views(gs@) == seq![group@],
    {
        let gs = vec![group];
        proof {
            assert(group_views(gs@) =~= seq![gs@[0]@]);
        }
        Action::NewGroups(gs)
    }

    /// The action that a poller emission becomes, if any.
    pub fn translate(emission: NewGroupsOrMessages) -> (r: Option<Action>)
        ensures
            match emission {
                NewGroupsOrMessages::Groups(g) => r matches Some(Action::NewGroups(h)) && group_views(h@) == group_views(g@),
                NewGroupsOrMessages::Messages(m) => r matches Some(Action::ReceiveMessages(n)) && batch_views(n@) == batch_views(m@),
                NewGroupsOrMessages::Nothing => r is None,
            },
    {
        match emission {
            NewGroupsOrMessages::Groups(g) => Some(Action::NewGroups(g)),
            NewGroupsOrMessages::Messages(m) => Some(Action::ReceiveMessages(m)),
            NewGroupsOrMessages::Nothing => None,
        }
    }

    /// The information message, as a system message.
    pub fn welcome_message(address: &Vec<u8>, db: Option<String>, installation_key: &Vec<u8>) -> (r: Action)
        ensures
            is_system_message(
                r,
                info_text(
                    address@,
                    match db {
                        Some(p) => Some(p@),
                        None => None,
                    },
                    installation_key@,
                ),
            ),
    {
        let mut info = String::from_str("-------------- Information --------------");
        info.append("\nWallet Address: 0x");
        let a = encode_hex(address);
        info.append(a.as_str());
        info.append("\nDatabase: ");
        match &db {
            Some(p) => info.append(p.as_str()),
            None => info.append("not displayable (not utf8?)"),
        }
        info.append("\nInstallation Public Key: ");
        let k = encode_hex(installation_key);
        info.append(k.as_str());
        Commands::send_message(info)
    }
}

} // verus!
