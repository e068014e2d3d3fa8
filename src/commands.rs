//! Slash commands: parsing a command line, and what each command does.
use vstd::prelude::*;

use crate::dispatch::{Action, Effect};
use crate::types::{Group, GroupView};
use crate::xmtp::XMTPAction;

verus! {

/// A command typed after a slash.
#[derive(Clone, Debug, PartialEq, Eq)]
pub enum CommandAction {
    Help,
    /// Register a new identity with XMTP.
    Register,
    /// Generate a new ephemeral wallet identity.
    Generate,
    /// Create a new group.
    Create,
    /// Join a group.
    Join,
    /// Invite a user to a group.
    Invite(Group, String),
    /// Information about the current session.
    Me,
    Quit,
    List(ListCommand),
    Unknown(String),
}

#[derive(Clone, Copy, Debug, PartialEq, Eq)]
pub enum ListCommand {
    Group,
    Users,
}

impl From<CommandAction> for Action {
    fn from(action: CommandAction) -> (r: Action) {
        Action::Command(action)
    }
}

impl vstd::std_specs::convert::FromSpecImpl<CommandAction> for Action {
    open spec fn obeys_from_spec() -> bool {
        true
    }

    open spec fn from_spec(v: CommandAction) -> Action {
        Action::Command(v)
    }
}

impl From<ListCommand> for CommandAction {
    fn from(list: ListCommand) -> (r: CommandAction) {
        CommandAction::List(list)
    }
}

impl vstd::std_specs::convert::FromSpecImpl<ListCommand> for CommandAction {
    open spec fn obeys_from_spec() -> bool {
        true
    }

    open spec fn from_spec(v: ListCommand) -> CommandAction {
        CommandAction::List(v)
    }
}

/// Why a command line was refused.
#[derive(Clone, Copy, Debug, PartialEq, Eq)]
pub enum CommandError {
    /// `/invite` came without the address of the user to invite.
    MissingInvitee,
}

/// The text shown for error `e`.
pub open spec fn error_text(e: CommandError) -> Seq<char> {
    match e {
        CommandError::MissingInvitee => "`/invite` requires indicating the wallet address of the user to invite"@,
    }
}

impl CommandError {
    /// The text shown for this error.
    pub fn message(&self) -> (r: String)
        ensures
            r@ == error_text(*self),
    {
        String::from_str("`/invite` requires indicating the wallet address of the user to invite")
    }
}

/// Index of the first space of `s`, or its length when it has none.
pub open spec fn first_space(s: Seq<char>) -> int
    decreases s.len(),
{
    if s.len() == 0 {
        0
    } else if s[0] == ' ' {
        0
    } else {
        1 + first_space(s.subrange(1, s.len() as int))
    }
}

/// The text before the first space.
pub open spec fn first_word(s: Seq<char>) -> Seq<char> {
    s.subrange(0, first_space(s))
}

/// Whether `s` has a space, and so a second word, possibly empty.
pub open spec fn has_second_word(s: Seq<char>) -> bool {
    first_space(s) < s.len()
}

/// The text between the first and the second space, or the end.
pub open spec fn second_word(s: Seq<char>) -> Seq<char> {
    let rest = s.subrange(first_space(s) + 1, s.len() as int);
    rest.subrange(0, first_space(rest))
}

proof fn lemma_first_space(s: Seq<char>, i: int)
    requires
        0 <= i <= s.len(),
        forall|j: int| 0 <= j < i ==> s[j] != ' ',
        i == s.len() || s[i] == ' ',
    ensures
        first_space(s) == i,
    decreases s.len(),
{
    if s.len() > 0 && i > 0 {
        let t = s.subrange(1, s.len() as int);
        assert forall|j: int| 0 <= j < i - 1 implies t[j] != ' ' by {
            assert(t[j] == s[j + 1]);
        }
        if i < s.len() {
            assert(t[i - 1] == s[i]);
        }
        lemma_first_space(t, i - 1);
    }
}

/// Index of the first space of `s` at or after `from`, or its length.
fn find_space(s: &str, from: usize) -> (r: usize)
    requires
        from <= s@.len(),
    ensures
        first_space(s@.subrange(from as int, s@.len() as int)) == r - from,
        from <= r <= s@.len(),
{
    let n = s.unicode_len();
    let mut i = from;
    while i < n && s.get_char(i) != ' '
        invariant
            n == s@.len(),
            from <= i <= n,
            forall|j: int| from <= j < i ==> s@[j] != ' ',
        decreases n - i,
    {
        i = i + 1;
    }
    proof {
        let t = s@.subrange(from as int, n as int);
        assert forall|j: int| 0 <= j < i - from implies t[j] != ' ' by {
            assert(t[j] == s@[from + j]);
        }
        if i < n {
            assert(t[i - from] == s@[i as int]);
        }
        lemma_first_space(t, i - from);
    }
    i
}

/// Whether `a` and `b` hold the same characters.
fn same_text(a: &str, b: &str) -> (r: bool)
    ensures
        r == (a@ == b@),
{
    let n = a.unicode_len();
    if n != b.unicode_len() {
        return false;
    }
    let mut i: usize = 0;
    while i < n
        invariant
            n == a@.len(),
            n == b@.len(),
            i <= n,
            forall|j: int| 0 <= j < i ==> a@[j] == b@[j],
        decreases n - i,
    {
        if a.get_char(i) != b.get_char(i) {
            return false;
        }
        i = i + 1;
    }
    proof {
        assert(a@ =~= b@);
    }
    true
}

/// The help text listing the commands.
pub open spec fn help_text() -> Seq<char> {
    "xChat Help Message"@ + "\n    /help: Receive this help dialogue"@ + "\n    /quit: quit the app"@
        + "\n    /register: register this instance with XMTP"@
        + "\n    /list {groups|users}: list the users or groups you are apart of"@
        + "\n    /generate: generate a new ephemeral wallet identity"@ + "\n    /create: create a new group"@
        + "\n    /join {group_id}: join a group"@ + "\n    /invite {user_id}: invite to join a group"@
        + "\n    /me: get information about the current sessions wallet address, balance, network, etc. "@
}

/// The reply to an unknown command `name`.
pub open spec fn unknown_text(name: Seq<char>) -> Seq<char> {
    "Unknown command: /"@ + name + ". use `/help` to get a list of commands"@
}

/// Whether `a` is the system message `text` in the system channel.
pub open spec fn is_system_message(a: Action, text: Seq<char>) -> bool {
    match a {
        Action::FakeMessage(id, user, t) => id@ == seq![0u8] && user@ == "xchat"@ && t@ == text,
        _ => false,
    }
}

/// Whether `r` is what parsing the command line `command` gives, `group`
/// being the group an invitation goes to. The first word names the command;
/// `invite` takes the second word as the user to invite.
pub open spec fn parses_to(command: Seq<char>, group: GroupView, r: Result<CommandAction, CommandError>) -> bool {
    let w = first_word(command);
    match r {
        Ok(CommandAction::Help) => w == "help"@,
        Ok(CommandAction::Quit) => w == "quit"@,
        Ok(CommandAction::Register) => w == "register"@,
        Ok(CommandAction::List(l)) => w == "list"@ && l == ListCommand::Users,
        Ok(CommandAction::Generate) => w == "generate"@,
        Ok(CommandAction::Create) => w == "create"@,
        Ok(CommandAction::Join) => w == "join"@,
        Ok(CommandAction::Invite(g, u)) => w == "invite"@ && has_second_word(command) && g@ == group && u@
            == second_word(command),
        Ok(CommandAction::Me) => w == "me"@,
        Ok(CommandAction::Unknown(s)) => s@ == w && w != "help"@ && w != "quit"@ && w != "register"@ && w
            != "list"@ && w != "generate"@ && w != "create"@ && w != "join"@ && w != "invite"@ && w != "me"@,
        Err(e) => w == "invite"@ && !has_second_word(command) && e == CommandError::MissingInvitee,
    }
}

impl CommandAction {
    /// The help message for the commands.
    pub fn help() -> (r: String)
        ensures
            r@ == help_text(),
    {
        let mut msg = String::from_str("xChat Help Message");
        msg.append("\n    /help: Receive this help dialogue");
        msg.append("\n    /quit: quit the app");
        msg.append("\n    /register: register this instance with XMTP");
        msg.append("\n    /list {groups|users}: list the users or groups you are apart of");
        msg.append("\n    /generate: generate a new ephemeral wallet identity");
        msg.append("\n    /create: create a new group");
        msg.append("\n    /join {group_id}: join a group");
        msg.append("\n    /invite {user_id}: invite to join a group");
        msg.append(
            "\n    /me: get information about the current sessions wallet address, balance, network, etc. ",
        );
        msg
    }

    /// Parses a command line, without its slash; an invitation goes to `group`.
    pub fn from_string(command: String, group: &Group) -> (r: Result<Self, CommandError>)
        ensures
            parses_to(command@, group@, r),
    {
        let s = command.as_str();
        let n = s.unicode_len();
        let end = find_space(s, 0);
        proof {
            assert(s@.subrange(0, s@.len() as int) =~= s@);
        }
        let word = s.substring_char(0, end);
        if same_text(word, "help") {
            Ok(CommandAction::Help)
        } else if same_text(word, "quit") {
            Ok(CommandAction::Quit)
        } else if same_text(word, "register") {
            Ok(CommandAction::Register)
        } else if same_text(word, "list") {
            Ok(CommandAction::List(ListCommand::Users))
        } else if same_text(word, "generate") {
            Ok(CommandAction::Generate)
        } else if same_text(word, "create") {
            Ok(CommandAction::Create)
        } else if same_text(word, "join") {
            Ok(CommandAction::Join)
        } else if same_text(word, "invite") {
            if end < n {
                let stop = find_space(s, end + 1);
                let user = s.substring_char(end + 1, stop);
                proof {
                    let rest = s@.subrange(end + 1, s@.len() as int);
                    assert(user@ =~= rest.subrange(0, first_space(rest)));
                }
                Ok(CommandAction::Invite(group.duplicate(), String::from_str(user)))
            } else {
                Err(CommandError::MissingInvitee)
            }
        } else if same_text(word, "me") {
            Ok(CommandAction::Me)
        } else {
            Ok(CommandAction::Unknown(String::from_str(word)))
        }
    }
}

/// The command loop's decisions.
pub struct Commands;

impl Commands {
    /// A system message from the application, in the system channel.
    pub fn send_message(msg: String) -> (r: Action)
        ensures
            is_system_message(r, msg@),
    {
        let id: Vec<u8> = vec![0u8];
        proof {
            assert(id@ =~= seq![0u8]);
        }
        let user = String::from_str("xchat");
        proof {
            reveal_strlit("xchat");
        }
        Action::FakeMessage(id, user, msg)
    }

    /// A refused command line, reported to the user as a system message.
    pub fn report_error(error: CommandError) -> (r: Action)
        ensures
            is_system_message(r, error_text(error)),
    {
        Self::send_message(error.message())
    }

    /// What carrying out `command` takes: a message or an action on the event
    /// source, an operation for the backend loop, or nothing.
    pub fn handle(command: CommandAction) -> (r: Option<Effect>)
        ensures
            match command {
                CommandAction::Help => r matches Some(Effect::Event(a)) && is_system_message(a, help_text()),
                CommandAction::Quit => r matches Some(Effect::Event(Action::Quit)),
                CommandAction::Create => r matches Some(Effect::Xmtp(XMTPAction::CreateGroup)),
                CommandAction::Invite(g, u) => r matches Some(Effect::Xmtp(XMTPAction::Invite(h, v))) && h@ == g@ && v
                    == u,
                CommandAction::Me => r matches Some(Effect::Xmtp(XMTPAction::Info)),
                CommandAction::Unknown(s) => r matches Some(Effect::Event(a)) && is_system_message(
                    a,
                    unknown_text(s@),
                ),
                _ => r is None,
            },
    {
        match command {
            CommandAction::Help => Some(Effect::Event(Self::send_message(CommandAction::help()))),
            CommandAction::Quit => Some(Effect::Event(Action::Quit)),
            CommandAction::Register => None,
            CommandAction::Generate => None,
            CommandAction::List(_) => None,
            CommandAction::Create => Some(Effect::Xmtp(XMTPAction::CreateGroup)),
            CommandAction::Join => None,
            CommandAction::Invite(group, user) => Some(Effect::Xmtp(XMTPAction::Invite(group, user))),
            CommandAction::Me => Some(Effect::Xmtp(XMTPAction::Info)),
            CommandAction::Unknown(s) => {
                let mut text = String::from_str("Unknown command: /");
                text.append(s.as_str());
                text.append(". use `/help` to get a list of commands");
                Some(Effect::Event(Self::send_message(text)))
            },
        }
    }
}

} // verus!
