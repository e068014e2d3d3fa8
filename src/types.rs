//! Group identifiers and groups.
use vstd::prelude::*;

verus! {

/// Opaque byte identifier of a group.
pub type GroupId = Vec<u8>;

/// A group identifier, with a short human-readable label.
#[derive(Clone, Debug, PartialEq, Eq, Hash)]
pub struct GroupIdWrapper(pub Vec<u8>);

/// A conversation.
///
/// `last_sent_at` is the watermark of the group: the highest timestamp of any
/// message already observed locally for it. A placeholder group (`is_fake`)
/// is synthesized locally and has no backend counterpart.
#[derive(Clone, Debug, PartialEq, Eq, Hash)]
pub struct Group {
    pub id: GroupId,
    /// Logical creation timestamp.
    pub created_at: i64,
    /// Timestamp of the last message already observed in this group.
    pub last_sent_at: i64,
    /// Marks a placeholder that must never reach the backend.
    is_fake: bool,
}

/// What a group is, as plain values.
pub struct GroupView {
    pub id: Seq<u8>,
    pub created_at: i64,
    pub last_sent_at: i64,
    pub is_fake: bool,
}

impl View for Group {
    type V = GroupView;

    closed spec fn view(&self) -> GroupView {
        GroupView {
            id: self.id@,
            created_at: self.created_at,
            last_sent_at: self.last_sent_at,
            is_fake: self.is_fake,
        }
    }
}

/// The placeholder group of the system channel.
pub open spec fn system_group() -> GroupView {
    GroupView { id: seq![0u8], created_at: 0, last_sent_at: 0, is_fake: true }
}

/// Whether two identifiers hold the same bytes.
pub fn same_id(a: &[u8], b: &[u8]) -> (r: bool)
    ensures
        r == (a@ == b@),
{
    if a.len() != b.len() {
        return false;
    }
    let mut i: usize = 0;
    while i < a.len()
        invariant
            a@.len() == b@.len(),
            i <= a@.len(),
            forall|j: int| 0 <= j < i ==> a@[j] == b@[j],
        decreases a@.len() - i,
    {
        if a[i] != b[i] {
            return false;
        }
        i = i + 1;
    }
    proof {
        assert(a@ =~= b@);
    }
    true
}

/// The decimal digit `k`, below ten.
pub open spec fn digit_char(k: u8) -> char {
    if k == 0 { '0' } else if k == 1 { '1' } else if k == 2 { '2' } else if k == 3 { '3' } else if k == 4 {
        '4'
    } else if k == 5 { '5' } else if k == 6 { '6' } else if k == 7 { '7' } else if k == 8 { '8' } else { '9' }
}

/// `n` written in decimal, without leading zeros.
pub open spec fn decimal(n: u8) -> Seq<char> {
    if n >= 100 {
        seq![digit_char(n / 100), digit_char((n / 10) % 10), digit_char(n % 10)]
    } else if n >= 10 {
        seq![digit_char(n / 10), digit_char(n % 10)]
    } else {
        seq![digit_char(n)]
    }
}

/// Each byte of `b` in decimal, one after the other.
pub open spec fn decimals(b: Seq<u8>) -> Seq<char>
    decreases b.len(),
{
    if b.len() == 0 {
        Seq::empty()
    } else {
        decimals(b.drop_last()) + decimal(b.last())
    }
}

/// The label of a group identifier: its first two bytes, an ellipsis, and its
/// third- and second-to-last bytes, in decimal; an identifier of fewer than
/// three bytes is written whole.
pub open spec fn id_label(id: Seq<u8>) -> Seq<char> {
    if id.len() >= 3 {
        decimal(id[0]) + decimal(id[1]) + "..."@ + decimal(id[id.len() - 3]) + decimal(id[id.len() - 2])
    } else {
        decimals(id)
    }
}

fn digit(k: u8) -> (r: &'static str)
    requires
        k < 10,
    ensures
        r@ == seq![digit_char(k)],
{
    proof {
        reveal_strlit("0");
        reveal_strlit("1");
        reveal_strlit("2");
        reveal_strlit("3");
        reveal_strlit("4");
        reveal_strlit("5");
        reveal_strlit("6");
        reveal_strlit("7");
        reveal_strlit("8");
        reveal_strlit("9");
    }
    if k == 0 { "0" } else if k == 1 { "1" } else if k == 2 { "2" } else if k == 3 { "3" } else if k == 4 {
        "4"
    } else if k == 5 { "5" } else if k == 6 { "6" } else if k == 7 { "7" } else if k == 8 { "8" } else { "9" }
}

/// Appends `n` in decimal to `s`.
fn push_decimal(s: &mut String, n: u8)
    ensures
        final(s)@ == old(s)@ + decimal(n),
{
    if n >= 100 {
        s.append(digit(n / 100));
        s.append(digit((n / 10) % 10));
        s.append(digit(n % 10));
    } else if n >= 10 {
        s.append(digit(n / 10));
        s.append(digit(n % 10));
    } else {
        s.append(digit(n));
    }
}

impl From<Vec<u8>> for GroupIdWrapper {
    fn from(value: Vec<u8>) -> (r: GroupIdWrapper) {
        GroupIdWrapper(value)
    }
}

impl vstd::std_specs::convert::FromSpecImpl<Vec<u8>> for GroupIdWrapper {
    open spec fn obeys_from_spec() -> bool {
        true
    }

    open spec fn from_spec(v: Vec<u8>) -> GroupIdWrapper {
        GroupIdWrapper(v)
    }
}

impl GroupIdWrapper {
    /// The short label of this identifier.
    pub fn label(&self) -> (r: String)
        ensures
            r@ == id_label(self.0@),
    {
        let id = &self.0;
        let n = id.len();
        let mut s = String::new();
        if n >= 3 {
            push_decimal(&mut s, id[0]);
            push_decimal(&mut s, id[1]);
            s.append("...");
            push_decimal(&mut s, id[n - 3]);
            push_decimal(&mut s, id[n - 2]);
        } else {
            let mut i: usize = 0;
            while i < n
                invariant
                    n == id@.len(),
                    i <= n,
                    s@ == decimals(id@.subrange(0, i as int)),
                decreases n - i,
            {
                proof {
                    assert(id@.subrange(0, i + 1).drop_last() =~= id@.subrange(0, i as int));
                }
                push_decimal(&mut s, id[i]);
                i = i + 1;
            }
            proof {
                assert(id@.subrange(0, n as int) =~= id@);
            }
        }
        s
    }
}

impl Group {
    /// Whether this is a placeholder group.
    pub open spec fn spec_is_fake(&self) -> bool {
        self@.is_fake
    }

    /// A copy of this group, with the same view.
    pub fn duplicate(&self) -> (r: Self)
        ensures
            r@ == self@,
    {
        let id = self.id.clone();
        proof {
            assert(id@ =~= self.id@);
        }
        Group { id, created_at: self.created_at, last_sent_at: self.last_sent_at, is_fake: self.is_fake }
    }

    /// A group reported by the backend.
    pub fn new(id: GroupId, created_at: i64, last_sent_at: i64) -> (r: Self)
        ensures
            r@ == (GroupView { id: id@, created_at, last_sent_at, is_fake: false }),
    {
        Self { id, created_at, last_sent_at, is_fake: false }
    }

    /// A placeholder group whose identifier is the single byte `id`.
    pub fn new_fake(id: u8) -> (r: Self)
        ensures
            r@ == (GroupView { id: seq![id], created_at: 0, last_sent_at: 0, is_fake: true }),
    {
        let r = Group { id: vec![id], created_at: 0, last_sent_at: 0, is_fake: true };
        proof {
            assert(r.id@ =~= seq![id]);
        }
        r
    }

    pub fn is_fake(&self) -> (r: bool)
        ensures
            r == self@.is_fake,
    {
        self.is_fake
    }

    /// The identifier.
    pub fn id(&self) -> (r: &GroupId)
        ensures
            r@ == self@.id,
    {
        &self.id
    }

    /// The creation time.
    pub fn created_at(&self) -> (r: i64)
        ensures
            r == self@.created_at,
    {
        self.created_at
    }

    /// The message watermark.
    pub fn last_sent_at(&self) -> (r: i64)
        ensures
            r == self@.last_sent_at,
    {
        self.last_sent_at
    }

    /// Moves the message watermark to `t`.
    pub fn set_last_sent_at(&mut self, t: i64)
        ensures
            final(self)@ == (GroupView { last_sent_at: t, ..old(self)@ }),
    {
        self.last_sent_at = t;
    }
}

} // verus!
