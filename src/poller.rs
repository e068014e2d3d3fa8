//! The poller: turns backend listings of groups and messages into batches
//! that reach the rest of the application at most once.
//!
//! Each tick the driver lists the groups created after `last_created_at` and,
//! for every known group, the messages sent after its watermark; it hands both
//! listings to `poll_xmtp`, which decides what is new, advances the
//! watermarks, and returns what to emit. Groups take priority: in a tick that
//! finds a new group no message is emitted.
use vstd::prelude::*;

use crate::message::{batch_views, message_views, GroupMessages, Message, MessageView};
use crate::types::{same_id, Group, GroupView};

verus! {

/// What one tick emits.
#[derive(Clone, Debug, PartialEq, Eq)]
pub enum NewGroupsOrMessages {
    Groups(Vec<Group>),
    Messages(Vec<GroupMessages>),
    Nothing,
}

/// What one tick emits, as plain values.
pub enum Emission {
    Groups(Seq<GroupView>),
    Messages(Seq<(Seq<u8>, Seq<MessageView>)>),
    Nothing,
}

/// The plain values of each group of `v`.
pub open spec fn group_views(v: Seq<Group>) -> Seq<GroupView> {
    v.map_values(|g: Group| g@)
}

impl View for NewGroupsOrMessages {
    type V = Emission;

    open spec fn view(&self) -> Emission {
        match self {
            NewGroupsOrMessages::Groups(g) => Emission::Groups(group_views(g@)),
            NewGroupsOrMessages::Messages(m) => Emission::Messages(batch_views(m@)),
            NewGroupsOrMessages::Nothing => Emission::Nothing,
        }
    }
}

/// The poller's watermarks, as plain values.
pub struct StreamView {
    /// The known groups, each with its message watermark, in order of discovery.
    pub groups: Seq<GroupView>,
    /// The latest creation time among the known groups, once there is one.
    pub last_created_at: Option<i64>,
}

/// Whether some group of `gs` has identifier `id`.
pub open spec fn has_id(gs: Seq<GroupView>, id: Seq<u8>) -> bool {
    exists|i: int| 0 <= i < gs.len() && #[trigger] gs[i].id == id
}

/// No two groups of `gs` share an identifier.
pub open spec fn distinct_ids(gs: Seq<GroupView>) -> bool {
    forall|i: int, j: int| 0 <= i < gs.len() && 0 <= j < gs.len() && i != j ==> gs[i].id != gs[j].id
}

/// Whether group `g` was created after the watermark `after`; every group is,
/// before the first watermark.
pub open spec fn created_after(g: GroupView, after: Option<i64>) -> bool {
    match after {
        Some(t) => g.created_at > t,
        None => true,
    }
}

/// `known` followed by each group of `fetched` that was created after
/// `after` and whose identifier is neither known nor taken by an earlier
/// fetched group.
pub open spec fn admitted(known: Seq<GroupView>, fetched: Seq<GroupView>, after: Option<i64>) -> Seq<GroupView>
    decreases fetched.len(),
{
    if fetched.len() == 0 {
        known
    } else {
        let prev = admitted(known, fetched.drop_last(), after);
        if has_id(prev, fetched.last().id) || !created_after(fetched.last(), after) {
            prev
        } else {
            prev.push(fetched.last())
        }
    }
}

/// The latest creation time of the groups of `gs`; zero for no group.
pub open spec fn max_created(gs: Seq<GroupView>) -> i64
    decreases gs.len(),
{
    if gs.len() == 0 {
        0
    } else if gs.len() == 1 {
        gs[0].created_at
    } else {
        let prev = max_created(gs.drop_last());
        if gs.last().created_at > prev {
            gs.last().created_at
        } else {
            prev
        }
    }
}

/// The messages of `msgs` sent strictly after `w`, in order.
pub open spec fn newer(msgs: Seq<MessageView>, w: i64) -> Seq<MessageView>
    decreases msgs.len(),
{
    if msgs.len() == 0 {
        Seq::empty()
    } else if msgs.last().sent_at > w {
        newer(msgs.drop_last(), w).push(msgs.last())
    } else {
        newer(msgs.drop_last(), w)
    }
}

/// The latest sending time of the non-empty `msgs`.
pub open spec fn max_sent(msgs: Seq<MessageView>) -> i64
    decreases msgs.len(),
{
    if msgs.len() <= 1 {
        msgs[0].sent_at
    } else {
        let prev = max_sent(msgs.drop_last());
        if msgs.last().sent_at > prev {
            msgs.last().sent_at
        } else {
            prev
        }
    }
}

/// The messages of the first batch of `fetched` for group `id`, or none.
pub open spec fn batch_for(fetched: Seq<(Seq<u8>, Seq<MessageView>)>, id: Seq<u8>) -> Seq<MessageView>
    decreases fetched.len(),
{
    if fetched.len() == 0 {
        Seq::empty()
    } else if fetched[0].0 == id {
        fetched[0].1
    } else {
        batch_for(fetched.subrange(1, fetched.len() as int), id)
    }
}

/// The messages of `fetched` that are new to group `g`.
pub open spec fn fresh_for(g: GroupView, fetched: Seq<(Seq<u8>, Seq<MessageView>)>) -> Seq<MessageView> {
    newer(batch_for(fetched, g.id), g.last_sent_at)
}

/// Group `g` with its watermark moved to the latest of its new messages, if any.
pub open spec fn advanced(g: GroupView, fetched: Seq<(Seq<u8>, Seq<MessageView>)>) -> GroupView {
    let fresh = fresh_for(g, fetched);
    if fresh.len() > 0 {
        GroupView { last_sent_at: max_sent(fresh), ..g }
    } else {
        g
    }
}

/// The groups of `gs` with every watermark advanced.
pub open spec fn all_advanced(gs: Seq<GroupView>, fetched: Seq<(Seq<u8>, Seq<MessageView>)>) -> Seq<GroupView> {
    Seq::new(gs.len(), |i: int| advanced(gs[i], fetched))
}

/// One batch per group of `gs` that has new messages, in the order of `gs`.
pub open spec fn message_batches(gs: Seq<GroupView>, fetched: Seq<(Seq<u8>, Seq<MessageView>)>) -> Seq<
    (Seq<u8>, Seq<MessageView>),
>
    decreases gs.len(),
{
    if gs.len() == 0 {
        Seq::empty()
    } else {
        let prev = message_batches(gs.drop_last(), fetched);
        let fresh = fresh_for(gs.last(), fetched);
        if fresh.len() > 0 {
            prev.push((gs.last().id, fresh))
        } else {
            prev
        }
    }
}

/// One tick of the poller, from the watermarks `s` and the listings of the
/// tick to the next watermarks and what is emitted.
pub open spec fn tick(
    s: StreamView,
    fetched_groups: Seq<GroupView>,
    fetched_messages: Seq<(Seq<u8>, Seq<MessageView>)>,
) -> (StreamView, Emission) {
    let all = admitted(s.groups, fetched_groups, s.last_created_at);
    if all.len() > s.groups.len() {
        (
            StreamView { groups: all, last_created_at: Some(max_created(all)) },
            Emission::Groups(all.subrange(s.groups.len() as int, all.len() as int)),
        )
    } else {
        let batches = message_batches(s.groups, fetched_messages);
        (
            StreamView { groups: all_advanced(s.groups, fetched_messages), ..s },
            if batches.len() > 0 {
                Emission::Messages(batches)
            } else {
                Emission::Nothing
            },
        )
    }
}

/// Polls the backend for new groups and new messages.
///
/// The backend handle itself stays with the driver; this holds what decides
/// what is new.
#[derive(Clone, Debug)]
pub struct MessagesStream {
    groups: Vec<Group>,
    last_created_at: Option<i64>,
}

impl View for MessagesStream {
    type V = StreamView;

    closed spec fn view(&self) -> StreamView {
        StreamView { groups: group_views(self.groups@), last_created_at: self.last_created_at }
    }
}

/// The watermarks are consistent: identifiers are distinct, and the group
/// watermark is the latest creation time once a group is known.
pub open spec fn stream_wf(s: StreamView) -> bool {
    &&& distinct_ids(s.groups)
    &&& if s.groups.len() == 0 {
        s.last_created_at == None::<i64>
    } else {
        s.last_created_at == Some(max_created(s.groups))
    }
}

proof fn lemma_admitted(known: Seq<GroupView>, fetched: Seq<GroupView>, after: Option<i64>)
    requires
        distinct_ids(known),
    ensures
        distinct_ids(admitted(known, fetched, after)),
        admitted(known, fetched, after).len() >= known.len(),
        admitted(known, fetched, after).subrange(0, known.len() as int) == known,
        forall|i: int|
            0 <= i < fetched.len() && created_after(fetched[i], after) ==> has_id(
                admitted(known, fetched, after),
                #[trigger] fetched[i].id,
            ),
        forall|k: int|
            known.len() <= k < admitted(known, fetched, after).len() ==> created_after(
                #[trigger] admitted(known, fetched, after)[k],
                after,
            ),
    decreases fetched.len(),
{
    if fetched.len() > 0 {
        let prev = admitted(known, fetched.drop_last(), after);
        lemma_admitted(known, fetched.drop_last(), after);
        let last = fetched.last();
        let all = admitted(known, fetched, after);
        if !has_id(prev, last.id) && created_after(last, after) {
            assert(all.subrange(0, known.len() as int) =~= prev.subrange(0, known.len() as int));
            assert forall|i: int, j: int| 0 <= i < all.len() && 0 <= j < all.len() && i != j implies all[i].id != all[j].id by {
                if i == prev.len() as int {
                    assert(!(prev[j].id == last.id));
                } else if j == prev.len() as int {
                    assert(!(prev[i].id == last.id));
                }
            }
            assert(all[prev.len() as int].id == last.id);
        }
        assert forall|i: int| 0 <= i < fetched.len() && created_after(fetched[i], after) implies has_id(all, #[trigger] fetched[i].id) by {
            if i < fetched.len() - 1 {
                assert(fetched.drop_last()[i] == fetched[i]);
                let k = choose|k: int| 0 <= k < prev.len() && #[trigger] prev[k].id == fetched[i].id;
                assert(all[k].id == fetched[i].id);
            } else if !has_id(prev, last.id) {
                assert(all[prev.len() as int].id == fetched[i].id);
            }
        }
        assert forall|k: int| known.len() <= k < all.len() implies created_after(#[trigger] all[k], after) by {
            if k < prev.len() {
                assert(all[k] == prev[k]);
            }
        }
    } else {
        assert(known.subrange(0, known.len() as int) =~= known);
    }
}

proof fn lemma_max_created_prefix(gs: Seq<GroupView>, n: int)
    requires
        1 <= n <= gs.len(),
    ensures
        max_created(gs) >= max_created(gs.subrange(0, n)),
    decreases gs.len() - n,
{
    if n < gs.len() {
        lemma_max_created_prefix(gs, n + 1);
        assert(gs.subrange(0, n + 1).drop_last() =~= gs.subrange(0, n));
    } else {
        assert(gs.subrange(0, n) =~= gs);
    }
}

proof fn lemma_max_created_same(a: Seq<GroupView>, b: Seq<GroupView>)
    requires
        a.len() == b.len(),
        forall|i: int| 0 <= i < a.len() ==> #[trigger] a[i].created_at == b[i].created_at,
    ensures
        max_created(a) == max_created(b),
    decreases a.len(),
{
    if a.len() > 0 {
        let (x, y) = (a.drop_last(), b.drop_last());
        assert forall|i: int| 0 <= i < x.len() implies #[trigger] x[i].created_at == y[i].created_at by {
            assert(x[i] == a[i] && y[i] == b[i]);
        }
        lemma_max_created_same(x, y);
        assert(a.last().created_at == b.last().created_at);
        assert(a[0].created_at == b[0].created_at);
    }
}

proof fn lemma_newer_after(msgs: Seq<MessageView>, w: i64)
    ensures
        forall|k: int| 0 <= k < newer(msgs, w).len() ==> #[trigger] newer(msgs, w)[k].sent_at > w,
    decreases msgs.len(),
{
    if msgs.len() > 0 {
        lemma_newer_after(msgs.drop_last(), w);
    }
}

proof fn lemma_max_sent_bound(msgs: Seq<MessageView>, w: i64)
    requires
        msgs.len() > 0,
        forall|k: int| 0 <= k < msgs.len() ==> #[trigger] msgs[k].sent_at > w,
    ensures
        max_sent(msgs) > w,
        forall|k: int| 0 <= k < msgs.len() ==> #[trigger] msgs[k].sent_at <= max_sent(msgs),
    decreases msgs.len(),
{
    if msgs.len() > 1 {
        let init = msgs.drop_last();
        assert forall|k: int| 0 <= k < init.len() implies #[trigger] init[k].sent_at > w by {
            assert(init[k] == msgs[k]);
        }
        lemma_max_sent_bound(init, w);
        assert forall|k: int| 0 <= k < msgs.len() implies #[trigger] msgs[k].sent_at <= max_sent(msgs) by {
            if k < init.len() {
                assert(init[k] == msgs[k]);
            }
        }
    }
}

/// Index of the group of `groups` with identifier `id`, if any.
fn position(groups: &Vec<Group>, id: &Vec<u8>) -> (r: Option<usize>)
    ensures
        match r {
            Some(i) => i < groups@.len() && groups@[i as int]@.id == id@,
            None => !has_id(group_views(groups@), id@),
        },
{
    let mut i: usize = 0;
    while i < groups.len()
        invariant
            i <= groups@.len(),
            forall|j: int| 0 <= j < i ==> groups@[j]@.id != id@,
        decreases groups@.len() - i,
    {
        if same_id(groups[i].id(), id) {
            return Some(i);
        }
        i = i + 1;
    }
    proof {
        assert forall|j: int| 0 <= j < groups@.len() implies !(#[trigger] group_views(groups@)[j].id == id@) by {
            assert(group_views(groups@)[j] == groups@[j]@);
        }
    }
    None
}

/// Index of the first batch of `fetched` for group `id`, if any.
fn batch_index(fetched: &Vec<GroupMessages>, id: &Vec<u8>) -> (r: Option<usize>)
    ensures
        match r {
            Some(j) => j < fetched@.len() && batch_for(batch_views(fetched@), id@) == batch_views(
                fetched@,
            )[j as int].1,
            None => batch_for(batch_views(fetched@), id@) == Seq::<MessageView>::empty(),
        },
{
    let ghost f = batch_views(fetched@);
    let mut j: usize = 0;
    proof {
        assert(f.subrange(0, f.len() as int) =~= f);
    }
    while j < fetched.len()
        invariant
            j <= fetched@.len(),
            f == batch_views(fetched@),
            batch_for(f, id@) == batch_for(f.subrange(j as int, f.len() as int), id@),
        decreases fetched@.len() - j,
    {
        let ghost rest = f.subrange(j as int, f.len() as int);
        proof {
            assert(rest[0] == f[j as int]);
            assert(rest.subrange(1, rest.len() as int) =~= f.subrange(j + 1, f.len() as int));
        }
        if same_id(&fetched[j].id, id) {
            return Some(j);
        }
        j = j + 1;
    }
    None
}

/// The messages of `msgs` sent strictly after `w`, in order.
fn newer_messages(msgs: &Vec<Message>, w: i64) -> (r: Vec<Message>)
    ensures
        message_views(r@) == newer(message_views(msgs@), w),
{
    let ghost all = message_views(msgs@);
    let mut r: Vec<Message> = Vec::new();
    let mut j: usize = 0;
    while j < msgs.len()
        invariant
            j <= msgs@.len(),
            all == message_views(msgs@),
            message_views(r@) == newer(all.subrange(0, j as int), w),
        decreases msgs@.len() - j,
    {
        proof {
            assert(all.subrange(0, j + 1).drop_last() =~= all.subrange(0, j as int));
            assert(all.subrange(0, j + 1).last() == msgs@[j as int]@);
        }
        if msgs[j].sent_at > w {
            let ghost before = r@;
            r.push(msgs[j].duplicate());
            proof {
                assert(message_views(r@) =~= message_views(before).push(msgs@[j as int]@));
            }
        }
        j = j + 1;
    }
    proof {
        assert(all.subrange(0, j as int) =~= all);
    }
    r
}

/// The latest sending time of the non-empty `msgs`.
fn latest(msgs: &Vec<Message>) -> (r: i64)
    requires
        msgs@.len() > 0,
    ensures
        r == max_sent(message_views(msgs@)),
{
    let ghost all = message_views(msgs@);
    let mut best = msgs[0].sent_at;
    let mut j: usize = 1;
    proof {
        assert(all.subrange(0, 1).len() == 1);
    }
    while j < msgs.len()
        invariant
            1 <= j <= msgs@.len(),
            all == message_views(msgs@),
            best == max_sent(all.subrange(0, j as int)),
        decreases msgs@.len() - j,
    {
        proof {
            assert(all.subrange(0, j + 1).drop_last() =~= all.subrange(0, j as int));
        }
        if msgs[j].sent_at > best {
            best = msgs[j].sent_at;
        }
        j = j + 1;
    }
    proof {
        assert(all.subrange(0, j as int) =~= all);
    }
    best
}

impl MessagesStream {
    /// The watermarks are consistent.
    pub open spec fn wf(&self) -> bool {
        stream_wf(self@)
    }

    /// A poller that knows no group yet.
    pub fn new() -> (r: Self)
        ensures
            r.wf(),
            r@.groups == Seq::<GroupView>::empty(),
            r@.last_created_at == None::<i64>,
    {
        let r = Self { groups: Vec::new(), last_created_at: None };
        proof {
            assert(r@.groups =~= Seq::<GroupView>::empty());
        }
        r
    }

    /// The creation time after which to list groups: none before the first group.
    pub fn last_created_at(&self) -> (r: Option<i64>)
        ensures
            r == self@.last_created_at,
    {
        self.last_created_at
    }

    /// The known groups, each with the watermark after which to list its messages.
    pub fn groups(&self) -> (r: Vec<Group>)
        ensures
            group_views(r@) == self@.groups,
    {
        let mut r: Vec<Group> = Vec::new();
        let mut i: usize = 0;
        while i < self.groups.len()
            invariant
                i <= self.groups@.len(),
                group_views(r@) == group_views(self.groups@).subrange(0, i as int),
            decreases self.groups@.len() - i,
        {
            let ghost before = r@;
            r.push(self.groups[i].duplicate());
            proof {
                assert(group_views(r@) =~= group_views(before).push(self.groups@[i as int]@));
                assert(group_views(self.groups@).subrange(0, i + 1) =~= group_views(
                    self.groups@,
                ).subrange(0, i as int).push(self.groups@[i as int]@));
            }
            i = i + 1;
        }
        proof {
            assert(group_views(self.groups@).subrange(0, i as int) =~= group_views(self.groups@));
        }
        r
    }

    /// Adds each fetched group that is not known yet, and returns those, in order.
    fn admit_groups(&mut self, fetched: &Vec<Group>) -> (r: Vec<Group>)
        ensures
            group_views(final(self).groups@) == admitted(group_views(old(self).groups@), group_views(fetched@), old(self).last_created_at),
            group_views(r@) == admitted(group_views(old(self).groups@), group_views(fetched@), old(self).last_created_at).subrange(
                old(self).groups@.len() as int,
                final(self).groups@.len() as int,
            ),
            final(self).last_created_at == old(self).last_created_at,
            final(self).groups@.len() >= old(self).groups@.len(),
    {
        let ghost known = group_views(self.groups@);
        let ghost fv = group_views(fetched@);
        let mut fresh: Vec<Group> = Vec::new();
        let mut j: usize = 0;
        while j < fetched.len()
            invariant
                j <= fetched@.len(),
                known == group_views(old(self).groups@),
                fv == group_views(fetched@),
                self.last_created_at == old(self).last_created_at,
                group_views(self.groups@) == admitted(known, fv.subrange(0, j as int), old(self).last_created_at),
                self.groups@.len() >= known.len(),
                group_views(fresh@) == group_views(self.groups@).subrange(
                    known.len() as int,
                    self.groups@.len() as int,
                ),
            decreases fetched@.len() - j,
        {
            proof {
                assert(fv.subrange(0, j + 1).drop_last() =~= fv.subrange(0, j as int));
                assert(fv.subrange(0, j + 1).last() == fetched@[j as int]@);
            }
            let found = position(&self.groups, fetched[j].id());
            if let Some(k) = found {
                proof {
                    assert(group_views(self.groups@)[k as int].id == fetched@[j as int]@.id);
                }
            }
            let recent = match self.last_created_at {
                Some(t) => fetched[j].created_at() > t,
                None => true,
            };
            if found.is_none() && recent {
                let ghost before = self.groups@;
                let ghost fbefore = fresh@;
                self.groups.push(fetched[j].duplicate());
                fresh.push(fetched[j].duplicate());
                proof {
                    assert(group_views(self.groups@) =~= group_views(before).push(fetched@[j as int]@));
                    assert(group_views(fresh@) =~= group_views(fbefore).push(fetched@[j as int]@));
                    assert(group_views(self.groups@).subrange(known.len() as int, self.groups@.len() as int)
                        =~= group_views(before).subrange(known.len() as int, before.len() as int).push(
                        fetched@[j as int]@,
                    ));
                }
            }
            j = j + 1;
        }
        proof {
            assert(fv.subrange(0, j as int) =~= fv);
        }
        fresh
    }

    /// Sets the group watermark to the latest creation time of the known groups.
    fn update_last_created_at(&mut self)
        requires
            old(self).groups@.len() > 0,
        ensures
            final(self).groups == old(self).groups,
            final(self).last_created_at == Some(max_created(group_views(old(self).groups@))),
    {
        let ghost gs = group_views(self.groups@);
        let mut last_created_at: i64 = self.groups[0].created_at();
        let mut i: usize = 1;
        proof {
            assert(gs.subrange(0, 1).len() == 1);
        }
        while i < self.groups.len()
            invariant
                1 <= i <= self.groups@.len(),
                gs == group_views(self.groups@),
                last_created_at == max_created(gs.subrange(0, i as int)),
            decreases self.groups@.len() - i,
        {
            proof {
                assert(gs.subrange(0, i + 1).drop_last() =~= gs.subrange(0, i as int));
            }
            if self.groups[i].created_at() > last_created_at {
                last_created_at = self.groups[i].created_at();
            }
            i = i + 1;
        }
        proof {
            assert(gs.subrange(0, i as int) =~= gs);
        }
        self.last_created_at = Some(last_created_at);
    }

    /// Advances every watermark past the new messages of `fetched`, and returns
    /// one batch per group that has any.
    fn update_last_sent_at(&mut self, fetched: &Vec<GroupMessages>) -> (r: Vec<GroupMessages>)
        ensures
            group_views(final(self).groups@) == all_advanced(group_views(old(self).groups@), batch_views(fetched@)),
            batch_views(r@) == message_batches(group_views(old(self).groups@), batch_views(fetched@)),
            final(self).last_created_at == old(self).last_created_at,
    {
        let ghost gs = group_views(self.groups@);
        let ghost f = batch_views(fetched@);
        let mut next: Vec<Group> = Vec::new();
        let mut out: Vec<GroupMessages> = Vec::new();
        let mut i: usize = 0;
        while i < self.groups.len()
            invariant
                i <= self.groups@.len(),
                gs == group_views(self.groups@),
                f == batch_views(fetched@),
                group_views(next@) == all_advanced(gs, f).subrange(0, i as int),
                batch_views(out@) == message_batches(gs.subrange(0, i as int), f),
            decreases self.groups@.len() - i,
        {
            let g = &self.groups[i];
            let fresh = match batch_index(fetched, g.id()) {
                Some(j) => newer_messages(&fetched[j].messages, g.last_sent_at()),
                None => Vec::new(),
            };
            proof {
                assert(gs[i as int] == g@);
                assert(message_views(fresh@) =~= fresh_for(g@, f));
                assert(gs.subrange(0, i + 1).drop_last() =~= gs.subrange(0, i as int));
                assert(gs.subrange(0, i + 1).last() == g@);
            }
            let ghost nbefore = next@;
            let ghost obefore = out@;
            let mut h = g.duplicate();
            if fresh.len() > 0 {
                h.set_last_sent_at(latest(&fresh));
                let id = g.id().clone();
                proof {
                    assert(id@ =~= g@.id);
                }
                out.push(GroupMessages { id, messages: fresh });
                proof {
                    assert(batch_views(out@) =~= batch_views(obefore).push((g@.id, fresh_for(g@, f))));
                }
            }
            next.push(h);
            proof {
                assert(h@ == advanced(g@, f));
                assert(group_views(next@) =~= group_views(nbefore).push(h@));
                assert(all_advanced(gs, f).subrange(0, i + 1) =~= all_advanced(gs, f).subrange(0, i as int).push(
                    advanced(g@, f),
                ));
            }
            i = i + 1;
        }
        proof {
            assert(gs.subrange(0, i as int) =~= gs);
            assert(all_advanced(gs, f).subrange(0, i as int) =~= all_advanced(gs, f));
        }
        self.groups = next;
        out
    }

    /// Whether no batch holds a message.
    fn check_if_empty(batches: &Vec<GroupMessages>) -> (r: bool)
        ensures
            r == (batches@.len() == 0),
    {
        batches.len() == 0
    }

    /// One tick: new groups, if the listing holds any, else new messages.
    ///
    /// `fetched_groups` is the listing of groups created after
    /// `last_created_at()`; `fetched_messages` holds, per known group, the
    /// listing of its messages sent after its watermark. Anything in them that
    /// is not new (a known group, a group not created after the group
    /// watermark, a message not sent after its group's watermark) is ignored, so a listing that repeats itself emits nothing twice.
    pub fn poll_xmtp(&mut self, fetched_groups: Vec<Group>, fetched_messages: Vec<GroupMessages>) -> (r:
        NewGroupsOrMessages)
        requires
            old(self).wf(),
        ensures
            final(self).wf(),
            (final(self)@, r@) == tick(old(self)@, group_views(fetched_groups@), batch_views(fetched_messages@)),
    {
        proof {
            lemma_admitted(group_views(self.groups@), group_views(fetched_groups@), self.last_created_at);
        }
        let ghost s0 = self@;
        let fresh = self.admit_groups(&fetched_groups);
        let ghost all = admitted(s0.groups, group_views(fetched_groups@), s0.last_created_at);
        proof {
            assert(all.subrange(0, s0.groups.len() as int) == s0.groups);
        }
        if fresh.len() > 0 {
            self.update_last_created_at();
            proof {
                assert(self@.groups == all);
                assert(group_views(fresh@).len() == fresh@.len());
                assert(all.len() > s0.groups.len());
                assert(tick(s0, group_views(fetched_groups@), batch_views(fetched_messages@)).0 == self@);
            }
            return NewGroupsOrMessages::Groups(fresh);
        }
        proof {
            assert(group_views(fresh@).len() == 0);
            assert(all.len() == s0.groups.len());
            assert(all =~= all.subrange(0, s0.groups.len() as int));
            assert(self@.groups =~= s0.groups);
        }
        let batches = self.update_last_sent_at(&fetched_messages);
        proof {
            let adv = all_advanced(s0.groups, batch_views(fetched_messages@));
            assert forall|i: int, j: int| 0 <= i < adv.len() && 0 <= j < adv.len() && i != j implies adv[i].id
                != adv[j].id by {
                assert(adv[i].id == s0.groups[i].id);
                assert(adv[j].id == s0.groups[j].id);
            }
            assert(self@.groups == adv);
            assert forall|i: int| 0 <= i < adv.len() implies #[trigger] adv[i].created_at == s0.groups[i].created_at by {}
            lemma_max_created_same(adv, s0.groups);
        }
        if Self::check_if_empty(&batches) {
            NewGroupsOrMessages::Nothing
        } else {
            NewGroupsOrMessages::Messages(batches)
        }
    }
}

/// The identifiers of `a` stand, at the same places, at the start of `b`.
pub open spec fn ids_kept(a: Seq<GroupView>, b: Seq<GroupView>) -> bool {
    &&& b.len() >= a.len()
    &&& forall|i: int| 0 <= i < a.len() ==> #[trigger] b[i].id == a[i].id
}

/// Batch `b` belongs to a group of `gs`, and each of its messages was sent
/// after that group's watermark.
pub open spec fn after_watermark(gs: Seq<GroupView>, b: (Seq<u8>, Seq<MessageView>)) -> bool {
    exists|i: int|
        0 <= i < gs.len() && #[trigger] gs[i].id == b.0 && forall|m: int|
            0 <= m < b.1.len() ==> #[trigger] b.1[m].sent_at > gs[i].last_sent_at
}

/// The groups that `e` emits, or none.
pub open spec fn emitted_groups(e: Emission) -> Seq<GroupView> {
    match e {
        Emission::Groups(g) => g,
        _ => Seq::empty(),
    }
}

/// The message batches that `e` emits, or none.
pub open spec fn emitted_batches(e: Emission) -> Seq<(Seq<u8>, Seq<MessageView>)> {
    match e {
        Emission::Messages(m) => m,
        _ => Seq::empty(),
    }
}

/// The watermarks after the first `n` ticks of `inputs`, starting from `s0`;
/// each input holds the group listing and the message listings of a tick.
pub open spec fn state_after(
    s0: StreamView,
    inputs: Seq<(Seq<GroupView>, Seq<(Seq<u8>, Seq<MessageView>)>)>,
    n: nat,
) -> StreamView
    decreases n,
{
    if n == 0 {
        s0
    } else {
        let prev = state_after(s0, inputs, (n - 1) as nat);
        tick(prev, inputs[n - 1].0, inputs[n - 1].1).0
    }
}

/// What tick `n` of `inputs` emits, starting from `s0`.
pub open spec fn emission_at(
    s0: StreamView,
    inputs: Seq<(Seq<GroupView>, Seq<(Seq<u8>, Seq<MessageView>)>)>,
    n: nat,
) -> Emission {
    tick(state_after(s0, inputs, n), inputs[n as int].0, inputs[n as int].1).1
}

proof fn lemma_batches_from_groups(gs: Seq<GroupView>, f: Seq<(Seq<u8>, Seq<MessageView>)>, k: int)
    requires
        0 <= k < message_batches(gs, f).len(),
    ensures
        exists|i: int|
            0 <= i < gs.len() && #[trigger] gs[i].id == message_batches(gs, f)[k].0
                && message_batches(gs, f)[k].1 == fresh_for(gs[i], f),
    decreases gs.len(),
{
    let prev = message_batches(gs.drop_last(), f);
    if k < prev.len() {
        lemma_batches_from_groups(gs.drop_last(), f, k);
        let i = choose|i: int|
            0 <= i < gs.drop_last().len() && #[trigger] gs.drop_last()[i].id == prev[k].0 && prev[k].1 == fresh_for(
                gs.drop_last()[i],
                f,
            );
        assert(gs[i] == gs.drop_last()[i]);
    } else {
        assert(gs[gs.len() - 1] == gs.last());
    }
}

/// One tick, whatever the listings: the known groups keep their places and
/// identifiers; the groups it emits were unknown before, were created after the
/// group watermark, are distinct, and are
/// known after; no message is emitted in a tick that emits groups; messages
/// are emitted only for groups known before the tick, and each of them was
/// sent after that group's watermark; and no watermark moves backward.
pub proof fn lemma_tick(
    s: StreamView,
    fetched_groups: Seq<GroupView>,
    fetched_messages: Seq<(Seq<u8>, Seq<MessageView>)>,
)
    requires
        stream_wf(s),
    ensures
        ({
            let (n, e) = tick(s, fetched_groups, fetched_messages);
            &&& stream_wf(n)
            &&& ids_kept(s.groups, n.groups)
            &&& forall|i: int| 0 <= i < s.groups.len() ==> #[trigger] n.groups[i].last_sent_at >= s.groups[i].last_sent_at
            &&& forall|x: i64| s.last_created_at == Some(x) ==> (n.last_created_at matches Some(y) && y >= x)
            &&& distinct_ids(emitted_groups(e))
            &&& forall|k: int| 0 <= k < emitted_groups(e).len() ==> created_after(#[trigger] emitted_groups(e)[k], s.last_created_at)
            &&& forall|k: int| 0 <= k < emitted_groups(e).len() ==> !has_id(s.groups, #[trigger] emitted_groups(e)[k].id)
            &&& forall|k: int| 0 <= k < emitted_groups(e).len() ==> has_id(n.groups, #[trigger] emitted_groups(e)[k].id)
            &&& forall|id: Seq<u8>| has_id(n.groups, id) ==> has_id(s.groups, id) || exists|k: int| 0 <= k < emitted_groups(e).len() && #[trigger] emitted_groups(e)[k].id == id
            &&& emitted_groups(e).len() > 0 ==> emitted_batches(e).len() == 0
            &&& forall|k: int| 0 <= k < emitted_batches(e).len() ==> after_watermark(s.groups, #[trigger] emitted_batches(e)[k])
        }),
{
    let (n, e) = tick(s, fetched_groups, fetched_messages);
    let all = admitted(s.groups, fetched_groups, s.last_created_at);
    lemma_admitted(s.groups, fetched_groups, s.last_created_at);
    let old_len = s.groups.len() as int;
    assert forall|i: int| 0 <= i < old_len implies #[trigger] all[i] == s.groups[i] by {
        assert(all.subrange(0, old_len)[i] == all[i]);
    }
    if all.len() > s.groups.len() {
        let em = all.subrange(old_len, all.len() as int);
        assert(emitted_groups(e) == em);
        assert(all.subrange(0, old_len) == s.groups);
        if old_len >= 1 {
            lemma_max_created_prefix(all, old_len);
        }
        assert forall|k: int| 0 <= k < em.len() implies !has_id(s.groups, #[trigger] em[k].id) by {
            if has_id(s.groups, em[k].id) {
                let i = choose|i: int| 0 <= i < s.groups.len() && #[trigger] s.groups[i].id == em[k].id;
                assert(all[i].id == all[old_len + k].id);
            }
        }
        assert forall|k: int| 0 <= k < em.len() implies has_id(n.groups, #[trigger] em[k].id) by {
            assert(n.groups[old_len + k] == em[k]);
        }
        assert forall|id: Seq<u8>| has_id(n.groups, id) implies has_id(s.groups, id) || exists|k: int| 0 <= k < em.len() && #[trigger] em[k].id == id by {
            let i = choose|i: int| 0 <= i < n.groups.len() && #[trigger] n.groups[i].id == id;
            if i < old_len {
                assert(s.groups[i].id == id);
            } else {
                assert(em[i - old_len].id == id);
            }
        }
        assert forall|a: int, b: int| 0 <= a < em.len() && 0 <= b < em.len() && a != b implies em[a].id != em[b].id by {
            assert(all[old_len + a] == em[a] && all[old_len + b] == em[b]);
        }
    } else {
        let adv = all_advanced(s.groups, fetched_messages);
        assert(n.groups == adv);
        assert forall|i: int| 0 <= i < s.groups.len() implies #[trigger] n.groups[i].last_sent_at >= s.groups[i].last_sent_at by {
            let g = s.groups[i];
            let fresh = fresh_for(g, fetched_messages);
            if fresh.len() > 0 {
                lemma_newer_after(batch_for(fetched_messages, g.id), g.last_sent_at);
                lemma_max_sent_bound(fresh, g.last_sent_at);
            }
        }
        assert forall|i: int| 0 <= i < adv.len() implies #[trigger] adv[i].created_at == s.groups[i].created_at by {}
        lemma_max_created_same(adv, s.groups);
        assert forall|a: int, b: int| 0 <= a < adv.len() && 0 <= b < adv.len() && a != b implies adv[a].id != adv[b].id by {
            assert(adv[a].id == s.groups[a].id && adv[b].id == s.groups[b].id);
        }
        assert forall|id: Seq<u8>| has_id(n.groups, id) implies has_id(s.groups, id) by {
            let i = choose|i: int| 0 <= i < n.groups.len() && #[trigger] n.groups[i].id == id;
            assert(s.groups[i].id == id);
        }
        let batches = message_batches(s.groups, fetched_messages);
        assert forall|k: int| 0 <= k < emitted_batches(e).len() implies after_watermark(s.groups, #[trigger] emitted_batches(e)[k]) by {
            assert(emitted_batches(e) == batches);
            lemma_batches_from_groups(s.groups, fetched_messages, k);
            let i = choose|i: int| 0 <= i < s.groups.len() && #[trigger] s.groups[i].id == batches[k].0 && batches[k].1 == fresh_for(s.groups[i], fetched_messages);
            lemma_newer_after(batch_for(fetched_messages, s.groups[i].id), s.groups[i].last_sent_at);
            assert(s.groups[i].id == batches[k].0);
        }
    }
}

proof fn lemma_ids_kept_trans(a: Seq<GroupView>, b: Seq<GroupView>, c: Seq<GroupView>)
    requires
        ids_kept(a, b),
        ids_kept(b, c),
    ensures
        ids_kept(a, c),
{
    assert forall|i: int| 0 <= i < a.len() implies #[trigger] c[i].id == a[i].id by {
        assert(c[i].id == b[i].id);
    }
}

proof fn lemma_run_keeps_ids(
    s0: StreamView,
    inputs: Seq<(Seq<GroupView>, Seq<(Seq<u8>, Seq<MessageView>)>)>,
    a: nat,
    b: nat,
)
    requires
        stream_wf(s0),
        a <= b <= inputs.len(),
    ensures
        stream_wf(state_after(s0, inputs, b)),
        ids_kept(state_after(s0, inputs, a).groups, state_after(s0, inputs, b).groups),
    decreases b,
{
    if b == 0 {
        assert(ids_kept(s0.groups, s0.groups));
    } else if a == b {
        lemma_run_keeps_ids(s0, inputs, 0, (b - 1) as nat);
        let prev = state_after(s0, inputs, (b - 1) as nat);
        lemma_tick(prev, inputs[b - 1].0, inputs[b - 1].1);
        let cur = state_after(s0, inputs, b);
        assert(ids_kept(cur.groups, cur.groups));
    } else {
        lemma_run_keeps_ids(s0, inputs, a, (b - 1) as nat);
        let prev = state_after(s0, inputs, (b - 1) as nat);
        lemma_tick(prev, inputs[b - 1].0, inputs[b - 1].1);
        lemma_ids_kept_trans(state_after(s0, inputs, a).groups, prev.groups, state_after(s0, inputs, b).groups);
    }
}

proof fn lemma_has_id_kept(a: Seq<GroupView>, b: Seq<GroupView>, id: Seq<u8>)
    requires
        ids_kept(a, b),
        has_id(a, id),
    ensures
        has_id(b, id),
{
    let i = choose|i: int| 0 <= i < a.len() && #[trigger] a[i].id == id;
    assert(b[i].id == id);
}

/// Over any run of ticks from consistent watermarks, a group identifier is
/// emitted in at most one batch of new groups, and at most once in it.
pub proof fn lemma_group_emitted_once(
    s0: StreamView,
    inputs: Seq<(Seq<GroupView>, Seq<(Seq<u8>, Seq<MessageView>)>)>,
    t1: nat,
    t2: nat,
)
    requires
        stream_wf(s0),
        t1 < inputs.len(),
        t2 < inputs.len(),
    ensures
        distinct_ids(emitted_groups(emission_at(s0, inputs, t1))),
        t1 != t2 ==> forall|a: int, b: int|
            0 <= a < emitted_groups(emission_at(s0, inputs, t1)).len() && 0 <= b < emitted_groups(
                emission_at(s0, inputs, t2),
            ).len() ==> #[trigger] emitted_groups(emission_at(s0, inputs, t1))[a].id != #[trigger] emitted_groups(
                emission_at(s0, inputs, t2),
            )[b].id,
{
    lemma_run_keeps_ids(s0, inputs, t1, t1);
    lemma_tick(state_after(s0, inputs, t1), inputs[t1 as int].0, inputs[t1 as int].1);
    if t1 != t2 {
        let (lo, hi) = if t1 < t2 { (t1, t2) } else { (t2, t1) };
        lemma_run_keeps_ids(s0, inputs, (lo + 1) as nat, hi);
        lemma_run_keeps_ids(s0, inputs, lo, lo);
        lemma_tick(state_after(s0, inputs, lo), inputs[lo as int].0, inputs[lo as int].1);
        lemma_tick(state_after(s0, inputs, hi), inputs[hi as int].0, inputs[hi as int].1);
        let elo = emitted_groups(emission_at(s0, inputs, lo));
        let ehi = emitted_groups(emission_at(s0, inputs, hi));
        assert(state_after(s0, inputs, (lo + 1) as nat) == tick(state_after(s0, inputs, lo), inputs[lo as int].0, inputs[lo as int].1).0);
        assert forall|a: int, b: int| 0 <= a < elo.len() && 0 <= b < ehi.len() implies elo[a].id != ehi[b].id by {
            lemma_has_id_kept(state_after(s0, inputs, (lo + 1) as nat).groups, state_after(s0, inputs, hi).groups, elo[a].id);
        }
    }
}

/// In a run of ticks from a poller that knows no group, a message is emitted
/// for a group only after a tick that emitted that group, and after the
/// watermark the group had just before.
pub proof fn lemma_groups_before_messages(
    s0: StreamView,
    inputs: Seq<(Seq<GroupView>, Seq<(Seq<u8>, Seq<MessageView>)>)>,
    t: nat,
    k: int,
)
    requires
        stream_wf(s0),
        s0.groups.len() == 0,
        t < inputs.len(),
        0 <= k < emitted_batches(emission_at(s0, inputs, t)).len(),
    ensures
        exists|t0: nat, a: int|
            t0 < t && 0 <= a < emitted_groups(emission_at(s0, inputs, t0)).len()
                && #[trigger] emitted_groups(emission_at(s0, inputs, t0))[a].id == emitted_batches(
                emission_at(s0, inputs, t),
            )[k].0,
{
    lemma_run_keeps_ids(s0, inputs, t, t);
    let st = state_after(s0, inputs, t);
    lemma_tick(st, inputs[t as int].0, inputs[t as int].1);
    let id = emitted_batches(emission_at(s0, inputs, t))[k].0;
    assert(after_watermark(st.groups, emitted_batches(emission_at(s0, inputs, t))[k]));
    let i = choose|i: int| 0 <= i < st.groups.len() && #[trigger] st.groups[i].id == id && (forall|m: int| 0 <= m < emitted_batches(emission_at(s0, inputs, t))[k].1.len() ==> #[trigger] emitted_batches(emission_at(s0, inputs, t))[k].1[m].sent_at > st.groups[i].last_sent_at);
    assert(has_id(st.groups, id));
    lemma_known_was_emitted(s0, inputs, t, id);
}

proof fn lemma_known_was_emitted(
    s0: StreamView,
    inputs: Seq<(Seq<GroupView>, Seq<(Seq<u8>, Seq<MessageView>)>)>,
    t: nat,
    id: Seq<u8>,
)
    requires
        stream_wf(s0),
        s0.groups.len() == 0,
        t <= inputs.len(),
        has_id(state_after(s0, inputs, t).groups, id),
    ensures
        exists|t0: nat, a: int|
            t0 < t && 0 <= a < emitted_groups(emission_at(s0, inputs, t0)).len()
                && #[trigger] emitted_groups(emission_at(s0, inputs, t0))[a].id == id,
    decreases t,
{
    if t == 0 {
        assert(false);
    } else {
        let p = (t - 1) as nat;
        lemma_run_keeps_ids(s0, inputs, p, p);
        let prev = state_after(s0, inputs, p);
        lemma_tick(prev, inputs[p as int].0, inputs[p as int].1);
        let e = emission_at(s0, inputs, p);
        if has_id(prev.groups, id) {
            lemma_known_was_emitted(s0, inputs, p, id);
            let (t0, a) = choose|t0: nat, a: int|
                t0 < p && 0 <= a < emitted_groups(emission_at(s0, inputs, t0)).len()
                    && #[trigger] emitted_groups(emission_at(s0, inputs, t0))[a].id == id;
            assert(t0 < t);
        } else {
            let a = choose|a: int| 0 <= a < emitted_groups(e).len() && #[trigger] emitted_groups(e)[a].id == id;
            assert(emitted_groups(emission_at(s0, inputs, p))[a].id == id);
        }
    }
}

} // verus!
