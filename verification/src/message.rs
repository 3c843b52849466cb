//! The message data model: users, rooms, message bodies, and an ordered
//! list of messages keyed by timestamp and identifier.

use vstd::prelude::*;

verus! {

/// Someone who sends messages.
#[derive(Clone, Debug)]
pub struct User {
    pub display_name: String,
    pub identifier: String,
}

/// Somewhere messages are sent.
#[derive(Clone, Debug)]
pub struct Room {
    pub display_name: String,
    pub identifier: String,
}

/// What orders and identifies a message: its timestamp, in milliseconds
/// since the epoch, then its identifier, compared lexicographically.
#[derive(Clone, Debug)]
pub struct MessageKey {
    pub timestamp: i64,
    pub identifier: String,
}

/// A message: its key, who sent it, where, and what it says.
#[derive(Clone, Debug)]
pub struct Message {
    pub key: MessageKey,
    pub sender: User,
    pub room: Room,
    pub body: MessageBody,
}

/// The kinds of message body.
#[derive(Clone, Debug)]
pub enum MessageBody {
    Text(RichText),
}

/// Message text.
#[derive(Clone, Debug)]
pub struct RichText(pub String);

impl Message {
    /// A copy of this message's key.
    pub fn key(&self) -> (r: MessageKey)
        ensures
            r.timestamp == self.key.timestamp,
            r.identifier@ == self.key.identifier@,
    {
        MessageKey { timestamp: self.key.timestamp, identifier: self.key.identifier.clone() }
    }
}

/// Strict lexicographic order on character sequences.
pub open spec fn chars_lt(a: Seq<char>, b: Seq<char>) -> bool
    decreases a.len(),
{
    if a.len() == 0 {
        b.len() > 0
    } else if b.len() == 0 {
        false
    } else if a[0] != b[0] {
        (a[0] as int) < (b[0] as int)
    } else {
        chars_lt(a.skip(1), b.skip(1))
    }
}

/// Strict total order on message keys: by timestamp, then by identifier.
pub open spec fn key_lt(a: MessageKey, b: MessageKey) -> bool {
    a.timestamp < b.timestamp || (a.timestamp == b.timestamp && chars_lt(a.identifier@, b.identifier@))
}

/// Two keys denote the same message: equal timestamp and identifier.
pub open spec fn key_same(a: MessageKey, b: MessageKey) -> bool {
    a.timestamp == b.timestamp && a.identifier@ == b.identifier@
}

proof fn lemma_chars_lt_connex(a: Seq<char>, b: Seq<char>)
    requires
        !chars_lt(a, b),
        !chars_lt(b, a),
    ensures
        a == b,
    decreases a.len(),
{
    if a.len() == 0 {
        assert(b.len() == 0);
        assert(a =~= b);
    } else {
        assert(b.len() > 0);
        assert(a[0] == b[0]);
        lemma_chars_lt_connex(a.skip(1), b.skip(1));
        assert(a =~= b) by {
            assert(forall|i: int|
                1 <= i < a.len() ==> a[i] == a.skip(1)[i - 1] && b[i] == b.skip(1)[i - 1]);
        }
    }
}

proof fn lemma_chars_lt_irrefl(a: Seq<char>)
    ensures
        !chars_lt(a, a),
    decreases a.len(),
{
    if a.len() > 0 {
        lemma_chars_lt_irrefl(a.skip(1));
    }
}

proof fn lemma_chars_lt_trans(a: Seq<char>, b: Seq<char>, c: Seq<char>)
    requires
        chars_lt(a, b),
        chars_lt(b, c),
    ensures
        chars_lt(a, c),
    decreases a.len(),
{
    if a.len() == 0 {
    } else {
        assert(b.len() > 0);
        assert(c.len() > 0);
        if a[0] == b[0] && b[0] == c[0] {
            lemma_chars_lt_trans(a.skip(1), b.skip(1), c.skip(1));
        }
    }
}

/// Keys that order neither way are the same key.
pub proof fn lemma_key_connex(a: MessageKey, b: MessageKey)
    requires
        !key_lt(a, b),
        !key_lt(b, a),
    ensures
        key_same(a, b),
{
    lemma_chars_lt_connex(a.identifier@, b.identifier@);
}

/// The key order is strict: no key precedes an equal one.
pub proof fn lemma_key_irrefl(a: MessageKey, b: MessageKey)
    requires
        key_same(a, b),
    ensures
        !key_lt(a, b),
{
    lemma_chars_lt_irrefl(a.identifier@);
}

/// The key order is transitive.
pub proof fn lemma_key_trans(a: MessageKey, b: MessageKey, c: MessageKey)
    requires
        key_lt(a, b),
        key_lt(b, c),
    ensures
        key_lt(a, c),
{
    if a.timestamp == b.timestamp && b.timestamp == c.timestamp {
        lemma_chars_lt_trans(a.identifier@, b.identifier@, c.identifier@);
    }
}

/// Compares two strings in the lexicographic order.
fn chars_less(a: &String, b: &String) -> (r: bool)
    ensures
        r == chars_lt(a@, b@),
{
    let an = a.as_str().unicode_len();
    let bn = b.as_str().unicode_len();
    let mut i: usize = 0;
    proof {
        assert(a@.skip(0) =~= a@);
        assert(b@.skip(0) =~= b@);
    }
    while i < an && i < bn
        invariant
            0 <= i <= an,
            0 <= i <= bn,
            an == a@.len(),
            bn == b@.len(),
            chars_lt(a@, b@) == chars_lt(a@.skip(i as int), b@.skip(i as int)),
        decreases an - i,
    {
        let ca = a.as_str().get_char(i);
        let cb = b.as_str().get_char(i);
        proof {
            assert(a@.skip(i as int)[0] == a@[i as int]);
            assert(b@.skip(i as int)[0] == b@[i as int]);
        }
        if !(ca == cb) {
            return (ca as u32) < (cb as u32);
        }
        proof {
            assert(a@.skip(i as int).skip(1) =~= a@.skip(i + 1));
            assert(b@.skip(i as int).skip(1) =~= b@.skip(i + 1));
        }
        i += 1;
    }
    proof {
        assert(a@.skip(i as int).len() == an - i);
        assert(b@.skip(i as int).len() == bn - i);
    }
    i >= an && i < bn
}

/// Compares two message keys in the key order.
pub fn key_less(a: &MessageKey, b: &MessageKey) -> (r: bool)
    ensures
        r == key_lt(*a, *b),
{
    if a.timestamp < b.timestamp {
        true
    } else if a.timestamp > b.timestamp {
        false
    } else {
        chars_less(&a.identifier, &b.identifier)
    }
}

/// Whether two message keys are the same.
pub fn key_equal(a: &MessageKey, b: &MessageKey) -> (r: bool)
    ensures
        r == key_same(*a, *b),
{
    a.timestamp == b.timestamp && a.identifier == b.identifier
}

/// The messages seen so far, iterable in the order of their keys.
#[derive(Debug)]
pub struct MessageList {
    messages: Vec<Message>,
}

impl View for MessageList {
    type V = Seq<Message>;

    closed spec fn view(&self) -> Seq<Message> {
        self.messages@
    }
}

impl MessageList {
    /// The messages are strictly ascending in the key order; in
    /// particular no two share a key.
    pub open spec fn wf(&self) -> bool {
        forall|i: int, j: int|
            0 <= i < j < self@.len() ==> key_lt(#[trigger] self@[i].key, #[trigger] self@[j].key)
    }

    /// An empty message list.
    pub fn new() -> (r: Self)
        ensures
            r.wf(),
            r@ == Seq::<Message>::empty(),
    {
        MessageList { messages: Vec::new() }
    }

    /// Inserts a message at its place in the key order. A message with
    /// the same key is displaced and returned.
    pub fn insert(&mut self, message: Message) -> (r: Option<Message>)
        requires
            old(self).wf(),
        ensures
            final(self).wf(),
            match r {
                None => {
                    &&& forall|i: int|
                        0 <= i < old(self)@.len() ==> !key_same(
                            #[trigger] old(self)@[i].key,
                            message.key,
                        )
                    &&& exists|pos: int|
                        0 <= pos <= old(self)@.len() && final(self)@ == old(self)@.insert(
                            pos,
                            message,
                        )
                },
                Some(displaced) => exists|i: int|
                    #![auto]
                    0 <= i < old(self)@.len() && key_same(old(self)@[i].key, message.key)
                        && displaced == old(self)@[i] && final(self)@ == old(self)@.update(
                        i,
                        message,
                    ),
            },
    {
        let (pos, displaced) = self.insert_with_index(message);
        proof {
            assert(0 <= pos as int <= old(self)@.len());
        }
        displaced
    }

    /// Like `insert`, but also says where the message landed.
    pub fn insert_with_index(&mut self, message: Message) -> (r: (usize, Option<Message>))
        requires
            old(self).wf(),
        ensures
            final(self).wf(),
            r.0 <= old(self)@.len(),
            final(self)@.len() <= usize::MAX,
            match r.1 {
                None => {
                    &&& forall|i: int|
                        0 <= i < old(self)@.len() ==> !key_same(
                            #[trigger] old(self)@[i].key,
                            message.key,
                        )
                    &&& final(self)@ == old(self)@.insert(r.0 as int, message)
                },
                Some(displaced) => {
                    &&& r.0 < old(self)@.len()
                    &&& key_same(old(self)@[r.0 as int].key, message.key)
                    &&& displaced == old(self)@[r.0 as int]
                    &&& final(self)@ == old(self)@.update(r.0 as int, message)
                },
            },
    {
        let n = self.messages.len();
        let mut j: usize = 0;
        while j < n && key_less(&self.messages[j].key, &message.key)
            invariant
                0 <= j <= n,
                n == self.messages@.len(),
                *self == *old(self),
                forall|p: int| 0 <= p < j ==> key_lt(#[trigger] self.messages@[p].key, message.key),
            decreases n - j,
        {
            j += 1;
        }
        if j < n && key_equal(&self.messages[j].key, &message.key) {
            let ghost olds = self.messages@;
            let displaced = self.messages.remove(j);
            self.messages.insert(j, message);
            proof {
                assert(self.messages@ =~= olds.update(j as int, message));
                assert forall|p: int, q: int| 0 <= p < q < self.messages@.len() implies key_lt(
                    #[trigger] self.messages@[p].key,
                    #[trigger] self.messages@[q].key,
                ) by {
                    if p == j {
                        assert(key_lt(olds[p].key, olds[q].key));
                    } else if q == j {
                        assert(key_lt(olds[p].key, olds[q].key));
                    }
                }
            }
            proof {
                assert(vstd::std_specs::vec::spec_vec_len(&self.messages) == self.messages@.len());
            }
            (j, Some(displaced))
        } else {
            let ghost olds = self.messages@;
            proof {
                if j < n {
                    if !key_lt(message.key, olds[j as int].key) {
                        lemma_key_connex(olds[j as int].key, message.key);
                        assert(false);
                    }
                    assert(key_lt(message.key, olds[j as int].key));
                }
                assert forall|i: int| 0 <= i < olds.len() implies !key_same(
                    #[trigger] olds[i].key,
                    message.key,
                ) by {
                    if key_same(olds[i].key, message.key) {
                        lemma_key_irrefl(olds[i].key, message.key);
                        lemma_key_irrefl(message.key, olds[i].key);
                        if i > j {
                            assert(key_lt(olds[j as int].key, olds[i].key));
                            lemma_key_trans(message.key, olds[j as int].key, olds[i].key);
                        }
                        assert(false);
                    }
                }
            }
            self.messages.insert(j, message);
            proof {
                let news = self.messages@;
                assert forall|p: int, q: int| 0 <= p < q < news.len() implies key_lt(
                    #[trigger] news[p].key,
                    #[trigger] news[q].key,
                ) by {
                    if q < j {
                        assert(news[p] == olds[p] && news[q] == olds[q]);
                    } else if p > j {
                        assert(news[p] == olds[p - 1] && news[q] == olds[q - 1]);
                    } else if p < j && q == j {
                        assert(news[p] == olds[p] && news[q] == message);
                    } else if p == j {
                        assert(news[p] == message && news[q] == olds[q - 1]);
                        assert(key_lt(message.key, olds[j as int].key));
                        if q - 1 > j {
                            assert(key_lt(olds[j as int].key, olds[q - 1].key));
                            lemma_key_trans(message.key, olds[j as int].key, olds[q - 1].key);
                        }
                    } else {
                        assert(p < j && q > j);
                        assert(news[p] == olds[p] && news[q] == olds[q - 1]);
                        if q - 1 == j {
                        } else {
                            assert(key_lt(olds[p].key, olds[q - 1].key));
                        }
                    }
                }
            }
            proof {
                assert(vstd::std_specs::vec::spec_vec_len(&self.messages) == self.messages@.len());
            }
            (j, None)
        }
    }

    /// How many messages the list holds.
    pub fn len(&self) -> (r: usize)
        ensures
            r == self@.len(),
    {
        self.messages.len()
    }

    /// Removes the message with the given key, if present, and says
    /// where it stood.
    pub fn remove_key(&mut self, key: &MessageKey) -> (r: Option<usize>)
        requires
            old(self).wf(),
        ensures
            final(self).wf(),
            match r {
                None => {
                    &&& *final(self) == *old(self)
                    &&& forall|i: int|
                        0 <= i < old(self)@.len() ==> !key_same(#[trigger] old(self)@[i].key, *key)
                },
                Some(i) => {
                    &&& i < old(self)@.len()
                    &&& key_same(old(self)@[i as int].key, *key)
                    &&& final(self)@ == old(self)@.remove(i as int)
                },
            },
    {
        let n = self.messages.len();
        let mut j: usize = 0;
        while j < n
            invariant
                0 <= j <= n,
                n == self.messages@.len(),
                *self == *old(self),
                old(self).wf(),
                forall|p: int| 0 <= p < j ==> !key_same(#[trigger] self.messages@[p].key, *key),
            decreases n - j,
        {
            if key_equal(&self.messages[j].key, key) {
                let ghost olds = self.messages@;
                self.messages.remove(j);
                proof {
                    olds.remove_ensures(j as int);
                    assert(self.messages@ =~= olds.remove(j as int));
                    let news = self.messages@;
                    assert forall|p: int, q: int| 0 <= p < q < news.len() implies key_lt(
                        #[trigger] news[p].key,
                        #[trigger] news[q].key,
                    ) by {
                        assert(news[p] == olds.remove(j as int)[p]);
                        assert(news[q] == olds.remove(j as int)[q]);
                        if q < j {
                            assert(news[p] == olds[p] && news[q] == olds[q]);
                            assert(key_lt(old(self)@[p].key, old(self)@[q].key));
                        } else if p >= j {
                            assert(news[p] == olds[p + 1] && news[q] == olds[q + 1]);
                            assert(key_lt(old(self)@[p + 1].key, old(self)@[q + 1].key));
                        } else {
                            assert(news[p] == olds[p] && news[q] == olds[q + 1]);
                            assert(key_lt(old(self)@[p].key, old(self)@[q + 1].key));
                        }
                    }
                }
                return Some(j);
            }
            j += 1;
        }
        None
    }

    /// The messages, in the order of their keys.
    pub fn iter(&self) -> (r: &Vec<Message>)
        ensures
            r@ == self@,
    {
        &self.messages
    }
}

impl Default for MessageList {
    /// An empty message list.
    fn default() -> (r: Self)
        ensures
            r.wf(),
            r@ == Seq::<Message>::empty(),
    {
        MessageList::new()
    }
}

} // verus!
