//! The key-sequence resolver: a stateful engine that holds a rolling buffer
//! of keypresses and, on each new key event or timeout, classifies the
//! buffer against the active keymap and emits passthrough keys and at most
//! one resolved action.
//!
//! On a new key the resolver scans the suffixes of the buffer from the
//! oldest start position forward and settles on the first one that still
//! classifies: the longest usable suffix, skipping as few leading events as
//! possible. Skipped events can never again take part in a match and are
//! passed through at once.

use vstd::prelude::*;

use crate::keymap::{classifies, live_prefix, matched, Keymap};
use crate::keys::KeyEvent;

verus! {

/// One wakeup of the resolver: a key event arrived, the ambiguity timeout
/// elapsed first, or the input stream closed for good.
#[derive(Clone, Copy, Debug, PartialEq, Eq, Structural)]
pub enum ResolverEvent {
    Key(KeyEvent),
    TimedOut,
    Closed,
}

/// The number of leading buffer events that cannot take part in any match:
/// the least `i` for which the suffix starting at `i` still classifies, or
/// the buffer's length when no non-empty suffix does.
pub open spec fn skip_count<A>(m: Map<Seq<KeyEvent>, A>, b: Seq<KeyEvent>) -> int
    decreases b.len(),
{
    if b.len() == 0 {
        0
    } else if classifies(m, b) {
        0
    } else {
        1 + skip_count(m, b.skip(1))
    }
}

/// After appending a key the buffer `b` resolves to an exact match.
pub open spec fn step_matched<A>(m: Map<Seq<KeyEvent>, A>, b: Seq<KeyEvent>) -> bool {
    skip_count(m, b) < b.len() && matched(m, b.skip(skip_count(m, b)))
}

/// The keys a step on buffer `b` passes through: the skipped leading
/// events, or the whole buffer when nothing classifies.
pub open spec fn step_passthrough<A>(m: Map<Seq<KeyEvent>, A>, b: Seq<KeyEvent>) -> Seq<KeyEvent> {
    b.take(skip_count(m, b))
}

/// The action a step on buffer `b` resolves, if any.
pub open spec fn step_action<A>(m: Map<Seq<KeyEvent>, A>, b: Seq<KeyEvent>) -> Option<A> {
    if step_matched(m, b) {
        Some(m[b.skip(skip_count(m, b))])
    } else {
        None
    }
}

/// The buffer left behind by a step on buffer `b`: empty after a match or a
/// flush, the still-ambiguous suffix otherwise.
pub open spec fn step_buffer<A>(m: Map<Seq<KeyEvent>, A>, b: Seq<KeyEvent>) -> Seq<KeyEvent> {
    if step_matched(m, b) {
        Seq::empty()
    } else {
        b.skip(skip_count(m, b))
    }
}

/// The value of an optional borrow.
pub open spec fn opt_deref<A>(o: Option<&A>) -> Option<A> {
    match o {
        Some(a) => Some(*a),
        None => None,
    }
}

/// `skip_count` is the least suffix start that classifies: pinned down by
/// what holds of every earlier start.
pub proof fn lemma_skip_count_is<A>(m: Map<Seq<KeyEvent>, A>, b: Seq<KeyEvent>, i: int)
    requires
        0 <= i <= b.len(),
        forall|j: int| 0 <= j < i ==> !classifies(m, #[trigger] b.skip(j)),
        i < b.len() ==> classifies(m, b.skip(i)),
    ensures
        skip_count(m, b) == i,
    decreases b.len(),
{
    if i == 0 {
        if b.len() > 0 {
            assert(b.skip(0) =~= b);
        }
    } else {
        assert(b.skip(0) =~= b);
        assert(!classifies(m, b));
        let t = b.skip(1);
        assert forall|j: int| 0 <= j < i - 1 implies !classifies(m, #[trigger] t.skip(j)) by {
            assert(t.skip(j) =~= b.skip(j + 1));
        }
        if i - 1 < t.len() {
            assert(t.skip(i - 1) =~= b.skip(i));
        }
        lemma_skip_count_is(m, t, i - 1);
    }
}

/// The skip count never runs past the end of the buffer.
pub proof fn lemma_skip_count_bounds<A>(m: Map<Seq<KeyEvent>, A>, b: Seq<KeyEvent>)
    ensures
        0 <= skip_count(m, b) <= b.len(),
    decreases b.len(),
{
    if b.len() > 0 && !classifies(m, b) {
        lemma_skip_count_bounds(m, b.skip(1));
    }
}

/// A skip count inside the buffer lands on a suffix that classifies.
pub proof fn lemma_skip_count_classifies<A>(m: Map<Seq<KeyEvent>, A>, b: Seq<KeyEvent>)
    ensures
        skip_count(m, b) < b.len() ==> classifies(m, b.skip(skip_count(m, b))),
    decreases b.len(),
{
    if b.len() > 0 {
        if classifies(m, b) {
            assert(b.skip(0) =~= b);
        } else {
            let t = b.skip(1);
            lemma_skip_count_classifies(m, t);
            lemma_skip_count_bounds(m, t);
            if skip_count(m, t) < t.len() {
                assert(b.skip(1 + skip_count(m, t)) =~= t.skip(skip_count(m, t)));
            }
        }
    }
}

/// Buffer invariant: whatever a step leaves buffered is a live ambiguous
/// prefix: bound to nothing itself, but a strict prefix of at least one
/// binding. In particular the buffer always stays shorter than the
/// longest bound sequence.
pub proof fn lemma_buffer_stays_ambiguous<A>(m: Map<Seq<KeyEvent>, A>, b: Seq<KeyEvent>)
    ensures
        ({
            let nb = step_buffer(m, b);
            nb.len() > 0 ==> !matched(m, nb) && live_prefix(m, nb)
        }),
{
    let nb = step_buffer(m, b);
    if nb.len() > 0 {
        lemma_skip_count_bounds(m, b);
        lemma_skip_count_classifies(m, b);
        assert(!step_matched(m, b));
        assert(skip_count(m, b) < b.len());
    }
}

/// Copies the events of `v` with indices in `start..end`.
fn copy_range(v: &Vec<KeyEvent>, start: usize, end: usize) -> (r: Vec<KeyEvent>)
    requires
        start <= end <= v@.len(),
    ensures
        r@ == v@.subrange(start as int, end as int),
{
    let mut r: Vec<KeyEvent> = Vec::new();
    let mut i: usize = start;
    while i < end
        invariant
            start <= i <= end <= v@.len(),
            r@.len() == i - start,
            forall|j: int| 0 <= j < r@.len() ==> r@[j] == v@[start + j],
        decreases end - i,
    {
        r.push(v[i]);
        i += 1;
    }
    proof {
        assert(r@ =~= v@.subrange(start as int, end as int));
    }
    r
}

/// The stateful resolver. Its abstract value is the rolling buffer of
/// not-yet-resolved key events.
#[derive(Debug)]
pub struct KeymapHandler {
    buffer: Vec<KeyEvent>,
}

impl View for KeymapHandler {
    type V = Seq<KeyEvent>;

    closed spec fn view(&self) -> Seq<KeyEvent> {
        self.buffer@
    }
}

impl KeymapHandler {
    /// A resolver with an empty buffer.
    pub fn new() -> (r: Self)
        ensures
            r@ == Seq::<KeyEvent>::empty(),
    {
        KeymapHandler { buffer: Vec::new() }
    }

    /// Whether any keys are buffered. With pending keys the caller must
    /// wait for the next key with the active keymap's timeout; with an
    /// empty buffer it may wait indefinitely.
    pub fn has_pending(&self) -> (r: bool)
        ensures
            r == (self@.len() > 0),
    {
        self.buffer.len() > 0
    }

    /// Feeds one wakeup into the resolver.
    ///
    /// - `Key(e)`: appends `e` to the buffer; returns the skipped
    ///   (passthrough) leading events and, on an exact match, the bound
    ///   action. After a match or a full flush the buffer is empty;
    ///   after an ambiguous prefix it holds exactly the ambiguous suffix.
    /// - `TimedOut`: passes the whole buffer through, with no action.
    /// - `Closed`: returns `None`; the caller must stop its loop.
    pub fn next<'a, A>(&mut self, keymap: &'a Keymap<A>, event: ResolverEvent) -> (r: Option<
        (Vec<KeyEvent>, Option<&'a A>),
    >)
        requires
            keymap.wf(),
        ensures
            match event {
                ResolverEvent::Closed => r is None && final(self)@ == old(self)@,
                ResolverEvent::TimedOut => {
                    &&& final(self)@ == Seq::<KeyEvent>::empty()
                    &&& (r matches Some((p, act)) && p@ == old(self)@ && act is None)
                },
                ResolverEvent::Key(e) => {
                    let b = old(self)@.push(e);
                    &&& final(self)@ == step_buffer(keymap@, b)
                    &&& (r matches Some((p, act)) && p@ == step_passthrough(keymap@, b)
                        && opt_deref(act) == step_action(keymap@, b))
                },
            },
    {
        match event {
            ResolverEvent::Closed => None,
            ResolverEvent::TimedOut => {
                let p = copy_range(&self.buffer, 0, self.buffer.len());
                self.buffer.clear();
                proof {
                    assert(p@ =~= old(self)@);
                }
                Some((p, None))
            },
            ResolverEvent::Key(e) => {
                self.buffer.push(e);
                let ghost b = self.buffer@;
                let n = self.buffer.len();
                let mut i: usize = 0;
                let mut found: Option<Option<&'a A>> = None;
                while i < n
                    invariant_except_break
                        found is None,
                    invariant
                        keymap.wf(),
                        0 <= i <= n,
                        n == self.buffer.len(),
                        self.buffer@ == b,
                        forall|j: int| 0 <= j < i ==> !classifies(keymap@, #[trigger] b.skip(j)),
                        match found {
                            Some(f) => i < n && (match f {
                                Some(a) => matched(keymap@, b.skip(i as int)) && *a == keymap@[b.skip(
                                    i as int,
                                )],
                                None => !matched(keymap@, b.skip(i as int)) && live_prefix(
                                    keymap@,
                                    b.skip(i as int),
                                ),
                            }),
                            None => true,
                        },
                    ensures
                        found is None ==> i == n,
                    decreases n - i,
                {
                    let cand = copy_range(&self.buffer, i, n);
                    proof {
                        assert(cand@ =~= b.skip(i as int));
                    }
                    match keymap.get(&cand) {
                        Some(f) => {
                            found = Some(f);
                            break ;
                        },
                        None => {},
                    }
                    i += 1;
                }
                match found {
                    Some(f) => {
                        proof {
                            lemma_skip_count_is(keymap@, b, i as int);
                        }
                        let p = copy_range(&self.buffer, 0, i);
                        proof {
                            assert(p@ =~= b.take(i as int));
                        }
                        match f {
                            Some(a) => {
                                self.buffer.clear();
                                Some((p, Some(a)))
                            },
                            None => {
                                let rest = copy_range(&self.buffer, i, n);
                                proof {
                                    assert(rest@ =~= b.skip(i as int));
                                }
                                self.buffer = rest;
                                Some((p, None))
                            },
                        }
                    },
                    None => {
                        proof {
                            lemma_skip_count_is(keymap@, b, n as int);
                            assert(b.take(n as int) =~= b);
                        }
                        let p = copy_range(&self.buffer, 0, n);
                        proof {
                            assert(p@ =~= b);
                        }
                        self.buffer.clear();
                        Some((p, None))
                    },
                }
            },
        }
    }

    /// Like `next`, but hands back a copy of the resolved action, free of
    /// the keymap's lifetime.
    pub fn next_cloned<'a, A: Copy>(&mut self, keymap: &'a Keymap<A>, event: ResolverEvent) -> (r:
        Option<(Vec<KeyEvent>, Option<A>)>)
        requires
            keymap.wf(),
        ensures
            match event {
                ResolverEvent::Closed => r is None && final(self)@ == old(self)@,
                ResolverEvent::TimedOut => {
                    &&& final(self)@ == Seq::<KeyEvent>::empty()
                    &&& (r matches Some((p, act)) && p@ == old(self)@ && act is None)
                },
                ResolverEvent::Key(e) => {
                    let b = old(self)@.push(e);
                    &&& final(self)@ == step_buffer(keymap@, b)
                    &&& (r matches Some((p, act)) && p@ == step_passthrough(keymap@, b)
                        && act == step_action(keymap@, b))
                },
            },
    {
        match self.next(keymap, event) {
            None => None,
            Some((p, act)) => {
                let owned: Option<A> = match act {
                    Some(a) => Some(*a),
                    None => None,
                };
                Some((p, owned))
            },
        }
    }
}

} // verus!
