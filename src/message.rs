//! Messages as the chat area keeps them, per group.
use vstd::prelude::*;

use crate::types::{same_id, Group, GroupId};

verus! {

/// Text shown in the system channel when the application starts.
pub const WELCOME_MESSAGE: &'static str = "Welcome to xChat, a terminal chat over XMTP groups.";

/// Whether a message carries user content or records a protocol event.
#[derive(Clone, Copy, Debug, PartialEq, Eq)]
pub enum MessageKind {
    Application,
    MembershipChange,
}

/// A message as displayed.
#[derive(Clone, Debug, PartialEq, Eq)]
pub struct Message {
    pub user: String,
    pub kind: MessageKind,
    /// Timestamp of the message, in nanoseconds.
    pub sent_at: i64,
    pub text: String,
}

/// A message as the backend stores it, with its payload already decoded to text.
#[derive(Clone, Debug, PartialEq, Eq)]
pub struct StoredMessage {
    pub group_id: GroupId,
    pub sender_inbox_id: String,
    pub kind: MessageKind,
    pub sent_at_ns: i64,
    pub text: String,
}

/// The new messages of one group.
#[derive(Clone, Debug, PartialEq, Eq)]
pub struct GroupMessages {
    pub id: GroupId,
    pub messages: Vec<Message>,
}

/// What a message is, as plain values.
pub struct MessageView {
    pub user: Seq<char>,
    pub kind: MessageKind,
    pub sent_at: i64,
    pub text: Seq<char>,
}

impl View for Message {
    type V = MessageView;

    open spec fn view(&self) -> MessageView {
        MessageView { user: self.user@, kind: self.kind, sent_at: self.sent_at, text: self.text@ }
    }
}

/// The plain values of each message of `v`.
pub open spec fn message_views(v: Seq<Message>) -> Seq<MessageView> {
    v.map_values(|m: Message| m@)
}

impl View for GroupMessages {
    type V = (Seq<u8>, Seq<MessageView>);

    open spec fn view(&self) -> (Seq<u8>, Seq<MessageView>) {
        (self.id@, message_views(self.messages@))
    }
}

/// `m` as the chat area displays it: its user column labelled by `user_label`.
pub open spec fn labelled(m: MessageView) -> MessageView {
    MessageView { user: user_label(m.user, m.text), ..m }
}

/// A stored message as displayed.
pub open spec fn stored_view(s: StoredMessage) -> MessageView {
    MessageView { user: abbreviated(s.sender_inbox_id@), kind: s.kind, sent_at: s.sent_at_ns, text: s.text@ }
}

/// The short form of a sender's identity: its first and last four characters.
pub open spec fn abbreviated(s: Seq<char>) -> Seq<char> {
    if s.len() >= 4 {
        s.subrange(0, 4) + "..."@ + s.subrange(s.len() - 4, s.len() as int) + " "@
    } else {
        s + " "@
    }
}

/// Number of newline characters in `s`.
pub open spec fn newlines(s: Seq<char>) -> nat
    decreases s.len(),
{
    if s.len() == 0 {
        0
    } else {
        newlines(s.drop_last()) + if s.last() == '\n' { 1nat } else { 0nat }
    }
}

/// Number of lines in `s`, a final line feed ending the last line rather than opening a new one.
pub open spec fn line_count(s: Seq<char>) -> nat {
    if s.len() > 0 && s.last() != '\n' {
        newlines(s) + 1
    } else {
        newlines(s)
    }
}

/// `n` line feeds.
pub open spec fn line_feeds(n: nat) -> Seq<char>
    decreases n,
{
    if n == 0 {
        Seq::empty()
    } else {
        line_feeds((n - 1) as nat) + "\n"@
    }
}

/// The user column of a displayed message: the sender, a colon, and one line
/// feed per line of text, so that both columns stay aligned.
pub open spec fn user_label(user: Seq<char>, text: Seq<char>) -> Seq<char> {
    user + ":"@ + line_feeds(line_count(text))
}

/// The application messages of `s`, in order.
pub open spec fn application_only(s: Seq<MessageView>) -> Seq<MessageView>
    decreases s.len(),
{
    if s.len() == 0 {
        Seq::empty()
    } else if s.last().kind == MessageKind::Application {
        application_only(s.drop_last()).push(s.last())
    } else {
        application_only(s.drop_last())
    }
}

/// Whether some entry of `es` belongs to group `id`.
pub open spec fn has_group(es: Seq<(Seq<u8>, Seq<MessageView>)>, id: Seq<u8>) -> bool {
    exists|i: int| 0 <= i < es.len() && #[trigger] es[i].0 == id
}

/// No two entries of `es` belong to the same group.
pub open spec fn unique_groups(es: Seq<(Seq<u8>, Seq<MessageView>)>) -> bool {
    forall|i: int, j: int| 0 <= i < es.len() && 0 <= j < es.len() && i != j ==> es[i].0 != es[j].0
}

/// `es` with `msgs` appended to the entry of group `id`, which is created at
/// the end when there is none.
pub open spec fn appended(es: Seq<(Seq<u8>, Seq<MessageView>)>, id: Seq<u8>, msgs: Seq<MessageView>) -> Seq<
    (Seq<u8>, Seq<MessageView>),
> {
    if has_group(es, id) {
        Seq::new(es.len(), |i: int| if es[i].0 == id { (id, es[i].1 + msgs) } else { es[i] })
    } else {
        es.push((id, msgs))
    }
}

/// `es` after each batch of `bs`, in order, had its application messages appended.
pub open spec fn after_batches(es: Seq<(Seq<u8>, Seq<MessageView>)>, bs: Seq<(Seq<u8>, Seq<MessageView>)>) -> Seq<
    (Seq<u8>, Seq<MessageView>),
>
    decreases bs.len(),
{
    if bs.len() == 0 {
        es
    } else {
        let prev = after_batches(es, bs.drop_last());
        appended(prev, bs.last().0, application_only(bs.last().1))
    }
}

/// `es` with an empty entry added, in order, for each group of `ids` that has none.
pub open spec fn with_groups(es: Seq<(Seq<u8>, Seq<MessageView>)>, ids: Seq<Seq<u8>>) -> Seq<
    (Seq<u8>, Seq<MessageView>),
>
    decreases ids.len(),
{
    if ids.len() == 0 {
        es
    } else {
        let prev = with_groups(es, ids.drop_last());
        if has_group(prev, ids.last()) {
            prev
        } else {
            prev.push((ids.last(), Seq::empty()))
        }
    }
}

proof fn lemma_appended_unique(es: Seq<(Seq<u8>, Seq<MessageView>)>, id: Seq<u8>, msgs: Seq<MessageView>)
    requires
        unique_groups(es),
    ensures
        unique_groups(appended(es, id, msgs)),
        has_group(appended(es, id, msgs), id),
        forall|k: Seq<u8>| has_group(es, k) ==> has_group(appended(es, id, msgs), k),
{
    let r = appended(es, id, msgs);
    if has_group(es, id) {
        assert forall|k: Seq<u8>| has_group(es, k) implies has_group(r, k) by {
            let i = choose|i: int| 0 <= i < es.len() && #[trigger] es[i].0 == k;
            assert(r[i].0 == k);
        }
        let i = choose|i: int| 0 <= i < es.len() && #[trigger] es[i].0 == id;
        assert(r[i].0 == id);
    } else {
        assert forall|k: Seq<u8>| has_group(es, k) implies has_group(r, k) by {
            let i = choose|i: int| 0 <= i < es.len() && #[trigger] es[i].0 == k;
            assert(r[i].0 == k);
        }
        assert(r[es.len() as int].0 == id);
    }
}

impl Message {
    /// A copy of this message.
    pub fn duplicate(&self) -> (r: Message)
        ensures
            r == *self,
    {
        Message { user: self.user.clone(), kind: self.kind, sent_at: self.sent_at, text: self.text.clone() }
    }

    /// The displayed form of a stored message: the sender is shortened to its
    /// first and last four characters.
    pub fn from_stored(stored: StoredMessage) -> (r: Message)
        ensures
            r.user@ == abbreviated(stored.sender_inbox_id@),
            r.kind == stored.kind,
            r.sent_at == stored.sent_at_ns,
            r.text == stored.text,
    {
        let s = stored.sender_inbox_id.as_str();
        let n = s.unicode_len();
        let mut user = String::new();
        if n >= 4 {
            user.append(s.substring_char(0, 4));
            user.append("...");
            user.append(s.substring_char(n - 4, n));
        } else {
            user.append(s);
        }
        user.append(" ");
        proof {
            assert(user@ =~= abbreviated(stored.sender_inbox_id@));
        }
        Message { user, kind: stored.kind, sent_at: stored.sent_at_ns, text: stored.text }
    }
}

impl Default for Message {
    fn default() -> (r: Message)
        ensures
            r.user@ == Seq::<char>::empty(),
            r.kind == MessageKind::Application,
            r.sent_at == 0,
            r.text@ == Seq::<char>::empty(),
    {
        Message { user: String::new(), kind: MessageKind::Application, text: String::new(), sent_at: 0 }
    }
}

proof fn lemma_newlines_bound(s: Seq<char>)
    ensures
        newlines(s) <= s.len(),
    decreases s.len(),
{
    if s.len() > 0 {
        lemma_newlines_bound(s.drop_last());
    }
}

/// Number of lines of `s`, as `str::lines` counts them.
pub fn count_lines(s: &str) -> (r: usize)
    ensures
        r == line_count(s@),
{
    let n = s.unicode_len();
    let mut count: usize = 0;
    let mut i: usize = 0;
    while i < n
        invariant
            n == s@.len(),
            i <= n,
            count == newlines(s@.subrange(0, i as int)),
            count <= i,
        decreases n - i,
    {
        let c = s.get_char(i);
        proof {
            assert(s@.subrange(0, i + 1).drop_last() =~= s@.subrange(0, i as int));
        }
        if c == '\n' {
            count = count + 1;
        }
        i = i + 1;
    }
    proof {
        assert(s@.subrange(0, n as int) =~= s@);
        if n > 0 {
            lemma_newlines_bound(s@.drop_last());
        }
    }
    if n > 0 && s.get_char(n - 1) != '\n' {
        count + 1
    } else {
        count
    }
}

/// The messages of every group the chat area knows, and the group in focus.
#[derive(Clone, Debug, Default, PartialEq, Eq)]
pub struct Messages {
    pub inner: Vec<GroupMessages>,
    pub focused: GroupId,
}

impl Messages {
    /// The entries, one per group, as plain values.
    pub open spec fn entries(&self) -> Seq<(Seq<u8>, Seq<MessageView>)> {
        self.inner@.map_values(|e: GroupMessages| e@)
    }

    /// Each group has at most one entry.
    pub open spec fn wf(&self) -> bool {
        unique_groups(self.entries())
    }

    /// An empty store, focused on the system channel.
    pub fn new() -> (r: Messages)
        ensures
            r.wf(),
            r.entries() == Seq::<(Seq<u8>, Seq<MessageView>)>::empty(),
            r.focused@ == seq![0u8],
    {
        let r = Messages { inner: Vec::new(), focused: vec![0u8] };
        proof {
            assert(r.entries() =~= Seq::<(Seq<u8>, Seq<MessageView>)>::empty());
        }
        r
    }

    pub fn set_focus(&mut self, id: &GroupId)
        ensures
            final(self).focused@ == id@,
            final(self).inner == old(self).inner,
    {
        let f = id.clone();
        proof {
            assert(f@ =~= id@);
        }
        self.focused = f;
    }

    /// Index of the entry of group `id`, if there is one.
    pub fn find(&self, id: &GroupId) -> (r: Option<usize>)
        requires
            self.wf(),
        ensures
            match r {
                Some(i) => i < self.entries().len() && self.entries()[i as int].0 == id@,
                None => !has_group(self.entries(), id@),
            },
    {
        let mut i: usize = 0;
        while i < self.inner.len()
            invariant
                i <= self.inner.len(),
                forall|j: int| 0 <= j < i ==> self.entries()[j].0 != id@,
            decreases self.inner.len() - i,
        {
            if same_id(&self.inner[i].id, id) {
                return Some(i);
            }
            i = i + 1;
        }
        None
    }

    /// Makes sure that group `id` has an entry, and returns its index.
    pub fn get_or_insert(&mut self, id: &GroupId) -> (r: usize)
        requires
            old(self).wf(),
        ensures
            final(self).wf(),
            final(self).focused == old(self).focused,
            final(self).entries() == appended(old(self).entries(), id@, Seq::empty()),
            r < final(self).entries().len(),
            final(self).entries()[r as int].0 == id@,
    {
        proof {
            lemma_appended_unique(self.entries(), id@, Seq::empty());
        }
        match self.find(id) {
            Some(i) => {
                proof {
                    assert(self.entries() =~= appended(self.entries(), id@, Seq::empty()));
                }
                i
            },
            None => {
                let key = id.clone();
                proof {
                    assert(key@ =~= id@);
                }
                let fresh = GroupMessages { id: key, messages: Vec::new() };
                proof {
                    assert(message_views(fresh.messages@) =~= Seq::<MessageView>::empty());
                }
                self.inner.push(fresh);
                proof {
                    assert(self.entries() =~= appended(old(self).entries(), id@, Seq::empty()));
                }
                self.inner.len() - 1
            },
        }
    }

    /// Appends `msgs` to the entry of group `id`, creating it when missing.
    fn append_messages(&mut self, id: &GroupId, msgs: Vec<Message>)
        requires
            old(self).wf(),
        ensures
            final(self).wf(),
            final(self).focused == old(self).focused,
            final(self).entries() == appended(old(self).entries(), id@, message_views(msgs@)),
    {
        proof {
            lemma_appended_unique(self.entries(), id@, message_views(msgs@));
        }
        match self.find(id) {
            Some(i) => {
                let ghost m0 = message_views(msgs@);
                let mut e = self.inner.remove(i);
                let ghost e0 = e@;
                let mut msgs = msgs;
                e.messages.append(&mut msgs);
                proof {
                    assert(e@.1 =~= e0.1 + m0);
                    assert(e@ == (id@, e0.1 + m0));
                }
                self.inner.insert(i, e);
                proof {
                    let es = old(self).entries();
                    assert forall|j: int| 0 <= j < es.len() && j != i implies es[j].0 != id@ by {}
                    assert(old(self).inner@.remove(i as int).insert(i as int, e) =~= old(self).inner@.update(i as int, e));
                    assert(self.entries() =~= appended(es, id@, m0));
                }
            },
            None => {
                let key = id.clone();
                proof {
                    assert(key@ =~= id@);
                }
                self.inner.push(GroupMessages { id: key, messages: msgs });
                proof {
                    assert(self.entries() =~= appended(old(self).entries(), id@, message_views(msgs@)));
                }
            },
        }
    }

    /// Adds one message to group `id`, its user column labelled with a colon and
    /// as many line feeds as its text has lines.
    pub fn add(&mut self, id: &GroupId, message: Message)
        requires
            old(self).wf(),
        ensures
            final(self).wf(),
            final(self).focused == old(self).focused,
            final(self).entries() == appended(old(self).entries(), id@, seq![labelled(message@)]),
    {
        let ghost orig = message@;
        let lines = count_lines(message.text.as_str());
        let mut message = message;
        message.user.append(":");
        let mut k: usize = 0;
        while k < lines
            invariant
                k <= lines,
                message.user@ == orig.user + ":"@ + line_feeds(k as nat),
                message.text@ == orig.text,
                message.kind == orig.kind,
                message.sent_at == orig.sent_at,
            decreases lines - k,
        {
            message.user.append("\n");
            k = k + 1;
        }
        let batch = vec![message];
        proof {
            assert(message_views(batch@) =~= seq![labelled(orig)]);
        }
        self.append_messages(id, batch);
    }

    /// Appends one stored message, of any kind, to its group, creating the
    /// group's entry when missing.
    pub fn add_group_message(&mut self, message: StoredMessage)
        requires
            old(self).wf(),
        ensures
            final(self).wf(),
            final(self).focused == old(self).focused,
            final(self).entries() == appended(old(self).entries(), message.group_id@, seq![stored_view(message)]),
    {
        let id = message.group_id.clone();
        proof {
            assert(id@ =~= message.group_id@);
        }
        let ghost expected = stored_view(message);
        let m = Message::from_stored(message);
        let batch = vec![m];
        proof {
            assert(message_views(batch@) =~= seq![expected]);
        }
        self.append_messages(&id, batch);
    }

    /// Appends each batch in order, keeping only application messages; a
    /// batch for a group without an entry creates one.
    pub fn add_group_messages(&mut self, batches: &Vec<GroupMessages>)
        requires
            old(self).wf(),
        ensures
            final(self).wf(),
            final(self).focused == old(self).focused,
            final(self).entries() == after_batches(old(self).entries(), batch_views(batches@)),
    {
        let ghost bs = batch_views(batches@);
        let mut i: usize = 0;
        while i < batches.len()
            invariant
                i <= batches@.len(),
                bs == batch_views(batches@),
                self.wf(),
                self.focused == old(self).focused,
                self.entries() == after_batches(old(self).entries(), bs.subrange(0, i as int)),
            decreases batches@.len() - i,
        {
            let app = application_messages(&batches[i].messages);
            self.append_messages(&batches[i].id, app);
            proof {
                assert(bs.subrange(0, i + 1).drop_last() =~= bs.subrange(0, i as int));
                assert(bs.subrange(0, i + 1).last() == bs[i as int]);
            }
            i = i + 1;
        }
        proof {
            assert(bs.subrange(0, i as int) =~= bs);
        }
    }

    /// Gives each group that has no entry an empty one, in order.
    pub fn add_groups(&mut self, groups: &Vec<Group>)
        requires
            old(self).wf(),
        ensures
            final(self).wf(),
            final(self).focused == old(self).focused,
            final(self).entries() == with_groups(old(self).entries(), group_ids(groups@)),
    {
        let ghost ids = group_ids(groups@);
        let mut i: usize = 0;
        while i < groups.len()
            invariant
                i <= groups@.len(),
                ids == group_ids(groups@),
                self.wf(),
                self.focused == old(self).focused,
                self.entries() == with_groups(old(self).entries(), ids.subrange(0, i as int)),
            decreases groups@.len() - i,
        {
            proof {
                assert(ids.subrange(0, i + 1).drop_last() =~= ids.subrange(0, i as int));
                assert(ids.subrange(0, i + 1).last() == groups@[i as int]@.id);
            }
            let ghost prev = self.entries();
            let found = self.find(groups[i].id());
            match found {
                Some(k) => {
                    proof {
                        assert(prev[k as int].0 == ids[i as int]);
                        assert(has_group(prev, ids[i as int]));
                    }
                },
                None => {
                    let key = groups[i].id().clone();
                    proof {
                        assert(key@ =~= groups@[i as int]@.id);
                    }
                    let fresh = GroupMessages { id: key, messages: Vec::new() };
                    proof {
                        assert(message_views(fresh.messages@) =~= Seq::<MessageView>::empty());
                        lemma_appended_unique(prev, key@, Seq::empty());
                    }
                    self.inner.push(fresh);
                    proof {
                        assert(self.entries() =~= prev.push((key@, Seq::<MessageView>::empty())));
                    }
                },
            }
            i = i + 1;
        }
        proof {
            assert(ids.subrange(0, i as int) =~= ids);
        }
    }

    /// The senders and texts of the application messages of the focused group.
    pub fn get(&self) -> (r: (Vec<String>, Vec<String>))
        requires
            self.wf(),
            has_group(self.entries(), self.focused@),
        ensures
            r.0@.len() == application_only(messages_of(self.entries(), self.focused@)).len(),
            r.1@.len() == r.0@.len(),
            forall|k: int|
                0 <= k < r.0@.len() ==> {
                    &&& #[trigger] r.0@[k]@ == application_only(messages_of(self.entries(), self.focused@))[k].user
                    &&& r.1@[k]@ == application_only(messages_of(self.entries(), self.focused@))[k].text
                },
    {
        let i = match self.find(&self.focused) {
            Some(i) => i,
            None => 0,
        };
        proof {
            assert(self.entries()[i as int].0 == self.focused@);
        }
        let msgs = &self.inner[i].messages;
        let ghost all = message_views(msgs@);
        let mut users: Vec<String> = Vec::new();
        let mut texts: Vec<String> = Vec::new();
        let mut j: usize = 0;
        while j < msgs.len()
            invariant
                j <= msgs@.len(),
                all == message_views(msgs@),
                users@.len() == application_only(all.subrange(0, j as int)).len(),
                texts@.len() == users@.len(),
                forall|k: int|
                    0 <= k < users@.len() ==> {
                        &&& #[trigger] users@[k]@ == application_only(all.subrange(0, j as int))[k].user
                        &&& texts@[k]@ == application_only(all.subrange(0, j as int))[k].text
                    },
            decreases msgs@.len() - j,
        {
            proof {
                assert(all.subrange(0, j + 1).drop_last() =~= all.subrange(0, j as int));
                assert(all.subrange(0, j + 1).last() == msgs@[j as int]@);
            }
            if matches!(msgs[j].kind, MessageKind::Application) {
                users.push(msgs[j].user.clone());
                texts.push(msgs[j].text.clone());
            }
            j = j + 1;
        }
        proof {
            assert(all.subrange(0, j as int) =~= all);
            lemma_messages_of(self.entries(), i as int, self.focused@);
        }
        (users, texts)
    }
}

/// The plain values of each batch of `v`.
pub open spec fn batch_views(v: Seq<GroupMessages>) -> Seq<(Seq<u8>, Seq<MessageView>)> {
    v.map_values(|b: GroupMessages| b@)
}

/// The identifiers of `groups`, in order.
pub open spec fn group_ids(groups: Seq<Group>) -> Seq<Seq<u8>> {
    groups.map_values(|g: Group| g@.id)
}

/// The messages of the entry of group `id`.
pub open spec fn messages_of(es: Seq<(Seq<u8>, Seq<MessageView>)>, id: Seq<u8>) -> Seq<MessageView> {
    es[choose|i: int| 0 <= i < es.len() && #[trigger] es[i].0 == id].1
}

proof fn lemma_messages_of(es: Seq<(Seq<u8>, Seq<MessageView>)>, i: int, id: Seq<u8>)
    requires
        unique_groups(es),
        0 <= i < es.len(),
        es[i].0 == id,
    ensures
        messages_of(es, id) == es[i].1,
{
    let c = choose|c: int| 0 <= c < es.len() && #[trigger] es[c].0 == id;
    assert(c == i);
}

/// The application messages of `msgs`, in order.
fn application_messages(msgs: &Vec<Message>) -> (r: Vec<Message>)
    ensures
        message_views(r@) == application_only(message_views(msgs@)),
{
    let ghost all = message_views(msgs@);
    let mut r: Vec<Message> = Vec::new();
    let mut j: usize = 0;
    while j < msgs.len()
        invariant
            j <= msgs@.len(),
            all == message_views(msgs@),
            message_views(r@) == application_only(all.subrange(0, j as int)),
        decreases msgs@.len() - j,
    {
        proof {
            assert(all.subrange(0, j + 1).drop_last() =~= all.subrange(0, j as int));
            assert(all.subrange(0, j + 1).last() == msgs@[j as int]@);
        }
        if matches!(msgs[j].kind, MessageKind::Application) {
            let ghost before = r@;
            r.push(msgs[j].duplicate());
            proof {
                assert(message_views(r@) =~= message_views(before).push(msgs@[j as int]@));
            }
        }
        j = j + 1;
    }
    proof {
        assert(all.subrange(0, j as int) =~= all);
    }
    r
}

/// The messages of group `id` in `es`; none when it has no entry.
pub open spec fn group_messages(es: Seq<(Seq<u8>, Seq<MessageView>)>, id: Seq<u8>) -> Seq<MessageView> {
    if has_group(es, id) {
        messages_of(es, id)
    } else {
        Seq::empty()
    }
}

/// The application messages that the batches `bs` carry for group `id`,
/// batch after batch.
pub open spec fn delivered(bs: Seq<(Seq<u8>, Seq<MessageView>)>, id: Seq<u8>) -> Seq<MessageView>
    decreases bs.len(),
{
    if bs.len() == 0 {
        Seq::empty()
    } else {
        delivered(bs.drop_last(), id) + if bs.last().0 == id {
            application_only(bs.last().1)
        } else {
            Seq::empty()
        }
    }
}

proof fn lemma_appended_messages(
    es: Seq<(Seq<u8>, Seq<MessageView>)>,
    k: Seq<u8>,
    m: Seq<MessageView>,
    id: Seq<u8>,
)
    requires
        unique_groups(es),
    ensures
        group_messages(appended(es, k, m), id) == group_messages(es, id) + if k == id {
            m
        } else {
            Seq::empty()
        },
{
    let r = appended(es, k, m);
    lemma_appended_unique(es, k, m);
    if has_group(es, k) {
        if has_group(es, id) {
            let i = choose|i: int| 0 <= i < es.len() && #[trigger] es[i].0 == id;
            lemma_messages_of(es, i, id);
            assert(r[i].0 == id);
            lemma_messages_of(r, i, id);
            if k != id {
                assert(group_messages(es, id) + Seq::<MessageView>::empty() =~= group_messages(es, id));
            }
        } else {
            assert(!has_group(r, id)) by {
                if has_group(r, id) {
                    let j = choose|j: int| 0 <= j < r.len() && #[trigger] r[j].0 == id;
                    assert(es[j].0 == id);
                }
            }
            assert(k != id);
            assert(Seq::<MessageView>::empty() + Seq::<MessageView>::empty() =~= Seq::<MessageView>::empty());
        }
    } else {
        if k == id {
            assert(r[es.len() as int].0 == id);
            lemma_messages_of(r, es.len() as int, id);
            assert(Seq::<MessageView>::empty() + m =~= m);
        } else if has_group(es, id) {
            let i = choose|i: int| 0 <= i < es.len() && #[trigger] es[i].0 == id;
            lemma_messages_of(es, i, id);
            assert(r[i] == es[i]);
            lemma_messages_of(r, i, id);
            assert(group_messages(es, id) + Seq::<MessageView>::empty() =~= group_messages(es, id));
        } else {
            assert(!has_group(r, id)) by {
                if has_group(r, id) {
                    let j = choose|j: int| 0 <= j < r.len() && #[trigger] r[j].0 == id;
                    if j < es.len() {
                        assert(es[j].0 == id);
                    }
                }
            }
            assert(Seq::<MessageView>::empty() + Seq::<MessageView>::empty() =~= Seq::<MessageView>::empty());
        }
    }
}

/// Delivering batches appends, to each group, the application messages they
/// carry for it, in order, after the messages it had.
pub proof fn lemma_batches_append(es: Seq<(Seq<u8>, Seq<MessageView>)>, bs: Seq<(Seq<u8>, Seq<MessageView>)>, id: Seq<u8>)
    requires
        unique_groups(es),
    ensures
        unique_groups(after_batches(es, bs)),
        group_messages(after_batches(es, bs), id) == group_messages(es, id) + delivered(bs, id),
    decreases bs.len(),
{
    if bs.len() == 0 {
        assert(group_messages(es, id) + Seq::<MessageView>::empty() =~= group_messages(es, id));
    } else {
        let init = bs.drop_last();
        lemma_batches_append(es, init, id);
        let prev = after_batches(es, init);
        lemma_appended_unique(prev, bs.last().0, application_only(bs.last().1));
        lemma_appended_messages(prev, bs.last().0, application_only(bs.last().1), id);
        let tail = if bs.last().0 == id {
            application_only(bs.last().1)
        } else {
            Seq::empty()
        };
        assert(group_messages(es, id) + delivered(init, id) + tail =~= group_messages(es, id) + (delivered(
            init,
            id,
        ) + tail));
    }
}

/// Delivering the same batches a second time, as a replay does, appends their
/// application messages to each group once more, after the first copy: the
/// chat area does not drop repeated messages, and keeps each group's order.
pub proof fn lemma_replay_appends(es: Seq<(Seq<u8>, Seq<MessageView>)>, bs: Seq<(Seq<u8>, Seq<MessageView>)>, id: Seq<u8>)
    requires
        unique_groups(es),
    ensures
        group_messages(after_batches(after_batches(es, bs), bs), id) == group_messages(es, id) + delivered(bs, id)
            + delivered(bs, id),
{
    lemma_batches_append(es, bs, id);
    lemma_batches_append(after_batches(es, bs), bs, id);
}

} // verus!
