//! Keymaps: a mapping from key-event sequences (chords) to action values,
//! plus the timeout that governs ambiguous-prefix resolution.
//!
//! A candidate sequence classifies against a keymap as exactly one of three
//! outcomes: an exact match of some binding, a strict prefix of at least one
//! binding, or no match at all. The resolver is built on that classification.

use vstd::prelude::*;

use crate::keys::KeyEvent;

verus! {

/// How long the resolver waits on an ambiguous prefix before passing the
/// buffered keys through, in milliseconds.
pub const DEFAULT_KEY_TIMEOUT_MS: u64 = 500;

/// A sequence `s` is bound in the mapping `m`.
pub open spec fn matched<A>(m: Map<Seq<KeyEvent>, A>, s: Seq<KeyEvent>) -> bool {
    m.contains_key(s)
}

/// A sequence `s` is a strict prefix of at least one binding of `m`: with
/// more input it could still grow into a match.
pub open spec fn live_prefix<A>(m: Map<Seq<KeyEvent>, A>, s: Seq<KeyEvent>) -> bool {
    exists|k: Seq<KeyEvent>| #![auto] m.contains_key(k) && s.is_prefix_of(k) && s.len() < k.len()
}

/// A sequence `s` classifies as something other than "no match".
pub open spec fn classifies<A>(m: Map<Seq<KeyEvent>, A>, s: Seq<KeyEvent>) -> bool {
    matched(m, s) || live_prefix(m, s)
}

/// A mapping from key-event sequences to actions of type `A`, with a
/// resolution timeout. Bindings are stored as a list of entries with
/// pairwise-distinct key sequences; the abstract value of the type is the
/// finite map from sequences to actions.
#[derive(Debug)]
pub struct Keymap<A> {
    keys: Vec<(Vec<KeyEvent>, A)>,
    timeout_ms: u64,
}

/// The finite map denoted by a list of (sequence, action) entries; a later
/// entry for the same sequence wins.
pub open spec fn entry_map<A>(s: Seq<(Vec<KeyEvent>, A)>) -> Map<Seq<KeyEvent>, A>
    decreases s.len(),
{
    if s.len() == 0 {
        Map::empty()
    } else {
        entry_map(s.drop_last()).insert(s.last().0@, s.last().1)
    }
}

impl<A> View for Keymap<A> {
    type V = Map<Seq<KeyEvent>, A>;

    closed spec fn view(&self) -> Map<Seq<KeyEvent>, A> {
        entry_map(self.keys@)
    }
}

/// The entries of `s` bind pairwise-distinct key sequences.
pub open spec fn entries_unique<A>(s: Seq<(Vec<KeyEvent>, A)>) -> bool {
    forall|i: int, j: int| 0 <= i < j < s.len() ==> s[i].0@ != s[j].0@
}

proof fn lemma_entry_map_no_key<A>(s: Seq<(Vec<KeyEvent>, A)>, k: Seq<KeyEvent>)
    requires
        forall|i: int| 0 <= i < s.len() ==> #[trigger] s[i].0@ != k,
    ensures
        !entry_map(s).contains_key(k),
    decreases s.len(),
{
    if s.len() > 0 {
        assert(s[s.len() - 1].0@ != k);
        assert forall|i: int| 0 <= i < s.drop_last().len() implies #[trigger] s.drop_last()[i].0@
            != k by {
            assert(s.drop_last()[i] == s[i]);
        }
        lemma_entry_map_no_key(s.drop_last(), k);
    }
}

proof fn lemma_entry_map_to_index<A>(s: Seq<(Vec<KeyEvent>, A)>, k: Seq<KeyEvent>)
    requires
        entry_map(s).contains_key(k),
    ensures
        exists|i: int| 0 <= i < s.len() && #[trigger] s[i].0@ == k,
    decreases s.len(),
{
    if s.len() == 0 {
        assert(false);
    } else if s.last().0@ == k {
        assert(s[s.len() - 1].0@ == k);
    } else {
        assert(entry_map(s.drop_last()).contains_key(k));
        lemma_entry_map_to_index(s.drop_last(), k);
        let i = choose|i: int| 0 <= i < s.drop_last().len() && #[trigger] s.drop_last()[i].0@ == k;
        assert(s.drop_last()[i] == s[i]);
        assert(s[i].0@ == k);
    }
}

proof fn lemma_entry_map_index<A>(s: Seq<(Vec<KeyEvent>, A)>, i: int)
    requires
        entries_unique(s),
        0 <= i < s.len(),
    ensures
        entry_map(s).contains_key(s[i].0@),
        entry_map(s)[s[i].0@] == s[i].1,
    decreases s.len(),
{
    if i == s.len() - 1 {
    } else {
        assert(entries_unique(s.drop_last()));
        assert(s.drop_last()[i] == s[i]);
        lemma_entry_map_index(s.drop_last(), i);
        assert(s[i].0@ != s[s.len() - 1].0@);
    }
}

proof fn lemma_entry_map_update<A>(s: Seq<(Vec<KeyEvent>, A)>, i: int, p: (Vec<KeyEvent>, A))
    requires
        entries_unique(s),
        0 <= i < s.len(),
        s[i].0@ == p.0@,
    ensures
        entry_map(s.update(i, p)) == entry_map(s).insert(p.0@, p.1),
    decreases s.len(),
{
    let t = s.update(i, p);
    if i == s.len() - 1 {
        assert(t.drop_last() =~= s.drop_last());
        assert(entry_map(t) =~= entry_map(s).insert(p.0@, p.1));
    } else {
        assert(entries_unique(s.drop_last()));
        assert(s.drop_last()[i] == s[i]);
        lemma_entry_map_update(s.drop_last(), i, p);
        assert(t.drop_last() =~= s.drop_last().update(i, p));
        assert(t.last() == s.last());
        assert(s[i].0@ != s[s.len() - 1].0@);
        assert(entry_map(t) =~= entry_map(s).insert(p.0@, p.1));
    }
}

/// The two key sequences hold the same events.
fn keys_equal(a: &Vec<KeyEvent>, b: &Vec<KeyEvent>) -> (r: bool)
    ensures
        r == (a@ == b@),
{
    if a.len() != b.len() {
        return false;
    }
    let mut i: usize = 0;
    while i < a.len()
        invariant
            i <= a.len(),
            a.len() == b.len(),
            forall|j: int| 0 <= j < i ==> a@[j] == b@[j],
        decreases a.len() - i,
    {
        if !(a[i] == b[i]) {
            return false;
        }
        i += 1;
    }
    proof {
        assert(a@ =~= b@);
    }
    true
}

/// `p` is a strict prefix of `k`.
fn is_strict_prefix(p: &Vec<KeyEvent>, k: &Vec<KeyEvent>) -> (r: bool)
    ensures
        r == (p@.is_prefix_of(k@) && p@.len() < k@.len()),
{
    if p.len() >= k.len() {
        return false;
    }
    let mut i: usize = 0;
    while i < p.len()
        invariant
            i <= p.len(),
            p.len() < k.len(),
            forall|j: int| 0 <= j < i ==> p@[j] == k@[j],
        decreases p.len() - i,
    {
        if !(p[i] == k[i]) {
            assert(!p@.is_prefix_of(k@));
            return false;
        }
        i += 1;
    }
    proof {
        assert(p@ =~= k@.subrange(0, p@.len() as int));
    }
    true
}

impl<A> Keymap<A> {
    /// The bindings' key sequences are pairwise distinct, so the entry list
    /// denotes its map faithfully.
    pub closed spec fn wf(&self) -> bool {
        entries_unique(self.keys@)
    }

    /// The resolution timeout of this keymap, in milliseconds.
    pub closed spec fn spec_timeout_ms(&self) -> u64 {
        self.timeout_ms
    }

    /// Reads the resolution timeout, in milliseconds.
    pub fn timeout_ms(&self) -> (r: u64)
        ensures
            r == self.spec_timeout_ms(),
    {
        self.timeout_ms
    }

    /// An empty keymap with the given timeout.
    pub fn with_timeout(timeout_ms: u64) -> (r: Self)
        ensures
            r.wf(),
            r@ == Map::<Seq<KeyEvent>, A>::empty(),
            r.spec_timeout_ms() == timeout_ms,
    {
        Keymap { keys: Vec::new(), timeout_ms }
    }

    /// Binds `keys` to `action`. A binding for the same sequence is
    /// overwritten: the last write wins.
    pub fn insert(&mut self, keys: Vec<KeyEvent>, action: A)
        requires
            old(self).wf(),
        ensures
            final(self).wf(),
            final(self)@ == old(self)@.insert(keys@, action),
            final(self).spec_timeout_ms() == old(self).spec_timeout_ms(),
    {
        let n = self.keys.len();
        let mut i: usize = 0;
        while i < n
            invariant
                i <= n,
                n == self.keys.len(),
                entries_unique(self.keys@),
                forall|j: int| 0 <= j < i ==> self.keys@[j].0@ != keys@,
                *self == *old(self),
            decreases n - i,
        {
            if keys_equal(&self.keys[i].0, &keys) {
                proof {
                    lemma_entry_map_update(self.keys@, i as int, (keys, action));
                }
                self.keys[i] = (keys, action);
                proof {
                    assert(entries_unique(self.keys@));
                }
                return ;
            }
            i += 1;
        }
        self.keys.push((keys, action));
        proof {
            let s = self.keys@;
            assert(s.drop_last() =~= old(self).keys@);
            assert(entries_unique(s)) by {
                assert(forall|j: int|
                    0 <= j < s.len() - 1 ==> #[trigger] s[j].0@ != s[s.len() - 1].0@);
            }
        }
    }

    /// Classifies the key sequence `keys` against this keymap.
    ///
    /// - `Some(Some(action))`: the sequence is bound to the action.
    /// - `Some(None)`: the sequence is unbound but a strict prefix of at
    ///   least one binding.
    /// - `None`: neither; no amount of further input can make it match.
    pub fn get<'a>(&'a self, keys: &Vec<KeyEvent>) -> (r: Option<Option<&'a A>>)
        requires
            self.wf(),
        ensures
            match r {
                Some(found) => match found {
                    Some(a) => matched(self@, keys@) && *a == self@[keys@],
                    None => !matched(self@, keys@) && live_prefix(self@, keys@),
                },
                None => !classifies(self@, keys@),
            },
    {
        let n = self.keys.len();
        let mut i: usize = 0;
        let mut saw_prefix = false;
        while i < n
            invariant
                i <= n,
                n == self.keys.len(),
                self.wf(),
                forall|j: int| 0 <= j < i ==> self.keys@[j].0@ != keys@,
                saw_prefix <==> exists|j: int|
                    0 <= j < i && keys@.is_prefix_of(#[trigger] self.keys@[j].0@) && keys@.len()
                        < self.keys@[j].0@.len(),
            decreases n - i,
        {
            if keys_equal(&self.keys[i].0, keys) {
                proof {
                    lemma_entry_map_index(self.keys@, i as int);
                }
                return Some(Some(&self.keys[i].1));
            }
            if is_strict_prefix(keys, &self.keys[i].0) {
                saw_prefix = true;
            }
            i += 1;
        }
        proof {
            lemma_entry_map_no_key(self.keys@, keys@);
            assert(!matched(self@, keys@));
            if saw_prefix {
                let j = choose|j: int|
                    0 <= j < n && keys@.is_prefix_of(#[trigger] self.keys@[j].0@) && keys@.len()
                        < self.keys@[j].0@.len();
                lemma_entry_map_index(self.keys@, j);
                assert(live_prefix(self@, keys@));
            } else {
                if live_prefix(self@, keys@) {
                    let k = choose|k: Seq<KeyEvent>| #![auto]
                        self@.contains_key(k) && keys@.is_prefix_of(k) && keys@.len() < k.len();
                    lemma_entry_map_to_index(self.keys@, k);
                    let j = choose|j: int| 0 <= j < self.keys@.len() && #[trigger] self.keys@[j].0@
                        == k;
                    assert(keys@.is_prefix_of(self.keys@[j].0@) && keys@.len()
                        < self.keys@[j].0@.len());
                    assert(false);
                }
            }
        }
        if saw_prefix {
            Some(None)
        } else {
            None
        }
    }
}

impl<A> Default for Keymap<A> {
    /// An empty keymap with the default timeout.
    fn default() -> (r: Self)
        ensures
            r.wf(),
            r@ == Map::<Seq<KeyEvent>, A>::empty(),
            r.spec_timeout_ms() == DEFAULT_KEY_TIMEOUT_MS,
    {
        Keymap::with_timeout(DEFAULT_KEY_TIMEOUT_MS)
    }
}

} // verus!
