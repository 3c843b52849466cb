//! Laws of the resolver, stated over the same step functions that govern
//! `KeymapHandler::next` and proved for every keymap and every input
//! stream: feeding keys one at a time is modelled by iterating the step
//! functions, with the emitted passthrough keys, consumed keys and actions
//! accumulated in order.

use vstd::prelude::*;

use crate::keymap::{classifies, live_prefix, matched};
use crate::keys::KeyEvent;
use crate::resolver::{
    lemma_skip_count_bounds, lemma_skip_count_is, skip_count, step_action, step_buffer,
    step_matched, step_passthrough,
};

verus! {

/// The state of a resolver run: the pending buffer plus everything emitted
/// so far, each in emission order.
pub struct FeedOutcome<A> {
    /// The not-yet-resolved buffer.
    pub buf: Seq<KeyEvent>,
    /// All keys passed through so far.
    pub passed: Seq<KeyEvent>,
    /// All keys accounted for so far: passed-through keys and the keys
    /// consumed by resolved actions, in emission order.
    pub handled: Seq<KeyEvent>,
    /// All actions resolved so far.
    pub actions: Seq<A>,
}

/// A fresh resolver: empty buffer, nothing emitted.
pub open spec fn start_state<A>() -> FeedOutcome<A> {
    FeedOutcome {
        buf: Seq::empty(),
        passed: Seq::empty(),
        handled: Seq::empty(),
        actions: Seq::empty(),
    }
}

/// One key event fed into the resolver, exactly as
/// `KeymapHandler::next` resolves it.
pub open spec fn feed_one<A>(m: Map<Seq<KeyEvent>, A>, st: FeedOutcome<A>, e: KeyEvent) -> FeedOutcome<A> {
    let b = st.buf.push(e);
    FeedOutcome {
        buf: step_buffer(m, b),
        passed: st.passed + step_passthrough(m, b),
        handled: st.handled + step_passthrough(m, b) + (if step_matched(m, b) {
            b.skip(skip_count(m, b))
        } else {
            Seq::empty()
        }),
        actions: st.actions + (match step_action(m, b) {
            Some(a) => seq![a],
            None => Seq::empty(),
        }),
    }
}

/// A run of key events fed into the resolver one at a time, oldest first.
pub open spec fn feed_keys<A>(
    m: Map<Seq<KeyEvent>, A>,
    st: FeedOutcome<A>,
    keys: Seq<KeyEvent>,
) -> FeedOutcome<A>
    decreases keys.len(),
{
    if keys.len() == 0 {
        st
    } else {
        feed_keys(m, feed_one(m, st, keys.first()), keys.drop_first())
    }
}

/// The ambiguity timeout elapsing, exactly as `KeymapHandler::next`
/// resolves it: the whole buffer passes through, no action fires.
pub open spec fn feed_timeout<A>(m: Map<Seq<KeyEvent>, A>, st: FeedOutcome<A>) -> FeedOutcome<A> {
    FeedOutcome {
        buf: Seq::empty(),
        passed: st.passed + st.buf,
        handled: st.handled + st.buf,
        actions: st.actions,
    }
}

proof fn lemma_feed_keys_snoc<A>(
    m: Map<Seq<KeyEvent>, A>,
    st: FeedOutcome<A>,
    keys: Seq<KeyEvent>,
    e: KeyEvent,
)
    ensures
        feed_keys(m, st, keys.push(e)) == feed_one(m, feed_keys(m, st, keys), e),
    decreases keys.len(),
{
    if keys.len() == 0 {
        assert(keys.push(e).first() == e);
        assert(keys.push(e).drop_first() =~= Seq::<KeyEvent>::empty());
        assert(feed_keys(m, st, keys) == st);
        assert(feed_keys(m, st, keys.push(e)) == feed_keys(
            m,
            feed_one(m, st, e),
            keys.push(e).drop_first(),
        ));
        assert(feed_keys(m, feed_one(m, st, e), keys.push(e).drop_first()) == feed_one(m, st, e));
    } else {
        assert(keys.push(e).first() == keys.first());
        assert(keys.push(e).drop_first() =~= keys.drop_first().push(e));
        lemma_feed_keys_snoc(m, feed_one(m, st, keys.first()), keys.drop_first(), e);
        assert(feed_keys(m, st, keys.push(e)) == feed_keys(
            m,
            feed_one(m, st, keys.first()),
            keys.drop_first().push(e),
        ));
        assert(feed_keys(m, st, keys) == feed_keys(m, feed_one(m, st, keys.first()), keys.drop_first()));
    }
}

/// Feeding a concatenation is feeding the parts one after the other.
pub proof fn lemma_feed_keys_append<A>(
    m: Map<Seq<KeyEvent>, A>,
    st: FeedOutcome<A>,
    xs: Seq<KeyEvent>,
    ys: Seq<KeyEvent>,
)
    ensures
        feed_keys(m, st, xs + ys) == feed_keys(m, feed_keys(m, st, xs), ys),
    decreases xs.len(),
{
    if xs.len() == 0 {
        assert(xs + ys =~= ys);
    } else {
        assert((xs + ys).first() == xs.first());
        assert((xs + ys).drop_first() =~= xs.drop_first() + ys);
        lemma_feed_keys_append(m, feed_one(m, st, xs.first()), xs.drop_first(), ys);
    }
}

proof fn lemma_feed_one_conserves<A>(m: Map<Seq<KeyEvent>, A>, st: FeedOutcome<A>, e: KeyEvent)
    ensures
        feed_one(m, st, e).handled + feed_one(m, st, e).buf == st.handled + st.buf + seq![e],
{
    let b = st.buf.push(e);
    let i = skip_count(m, b);
    lemma_skip_count_bounds(m, b);
    assert(b.take(i) + b.skip(i) =~= b);
    if step_matched(m, b) {
        assert(feed_one(m, st, e).handled + feed_one(m, st, e).buf =~= st.handled + st.buf + seq![
            e,
        ]);
    } else {
        assert(feed_one(m, st, e).handled + feed_one(m, st, e).buf =~= st.handled + st.buf + seq![
            e,
        ]);
    }
}

/// Ordering law: however a run of keypresses resolves, the keys the
/// resolver has accounted for (passed through, or consumed by an action),
/// in emission order, followed by the keys still buffered, reproduce the
/// keys fed in exactly once each, in their original order. No key is lost,
/// duplicated or reordered.
pub proof fn lemma_resolver_preserves_input_order<A>(
    m: Map<Seq<KeyEvent>, A>,
    st: FeedOutcome<A>,
    keys: Seq<KeyEvent>,
)
    ensures
        feed_keys(m, st, keys).handled + feed_keys(m, st, keys).buf == st.handled + st.buf + keys,
    decreases keys.len(),
{
    if keys.len() == 0 {
        assert(st.handled + st.buf + keys =~= st.handled + st.buf);
    } else {
        let st1 = feed_one(m, st, keys.first());
        lemma_feed_one_conserves(m, st, keys.first());
        lemma_resolver_preserves_input_order(m, st1, keys.drop_first());
        assert(st.handled + st.buf + seq![keys.first()] + keys.drop_first() =~= st.handled + st.buf
            + keys);
        assert(feed_keys(m, st, keys) == feed_keys(m, st1, keys.drop_first()));
    }
}

/// While only strict prefixes of a binding have been fed, and no such
/// prefix is itself bound, the resolver holds everything back: nothing
/// passes through, no action fires, the buffer is exactly what was fed.
proof fn lemma_feed_prefix_of_binding<A>(m: Map<Seq<KeyEvent>, A>, k2: Seq<KeyEvent>, j: int)
    requires
        m.contains_key(k2),
        forall|p: Seq<KeyEvent>|
            p.is_prefix_of(k2) && p.len() < k2.len() ==> !(#[trigger] m.contains_key(p)),
        0 <= j < k2.len(),
    ensures
        feed_keys(m, start_state::<A>(), k2.take(j)).buf == k2.take(j),
        feed_keys(m, start_state::<A>(), k2.take(j)).passed == Seq::<KeyEvent>::empty(),
        feed_keys(m, start_state::<A>(), k2.take(j)).handled == Seq::<KeyEvent>::empty(),
        feed_keys(m, start_state::<A>(), k2.take(j)).actions == Seq::<A>::empty(),
    decreases j,
{
    if j == 0 {
        assert(k2.take(0) =~= Seq::<KeyEvent>::empty());
    } else {
        lemma_feed_prefix_of_binding::<A>(m, k2, j - 1);
        let st = feed_keys(m, start_state::<A>(), k2.take(j - 1));
        let e = k2[j - 1];
        assert(k2.take(j) =~= k2.take(j - 1).push(e));
        lemma_feed_keys_snoc(m, start_state::<A>(), k2.take(j - 1), e);
        let b = st.buf.push(e);
        assert(b =~= k2.take(j));
        assert(b.is_prefix_of(k2)) by {
            assert(b =~= k2.subrange(0, b.len() as int));
        }
        assert(!matched(m, b));
        assert(live_prefix(m, b));
        assert(classifies(m, b.skip(0))) by {
            assert(b.skip(0) =~= b);
        }
        lemma_skip_count_is(m, b, 0);
        assert(!step_matched(m, b));
        assert(step_buffer(m, b) == b.skip(0));
        assert(b.skip(0) =~= b);
        assert(step_passthrough(m, b) == b.take(0));
        assert(b.take(0) =~= Seq::<KeyEvent>::empty());
        assert(feed_one(m, st, e).passed =~= Seq::<KeyEvent>::empty());
        assert(feed_one(m, st, e).handled =~= Seq::<KeyEvent>::empty());
        assert(feed_one(m, st, e).actions =~= Seq::<A>::empty());
    }
}

/// Exact-match law: under a non-overlapping keymap (no binding is a strict
/// prefix of another), feeding a bound sequence one event at a time emits
/// no passthrough and resolves exactly its action, consuming exactly the
/// sequence's events; the buffer ends empty.
pub proof fn lemma_exact_match_fires<A>(m: Map<Seq<KeyEvent>, A>, k: Seq<KeyEvent>)
    requires
        m.contains_key(k),
        k.len() > 0,
        forall|k1: Seq<KeyEvent>, k2: Seq<KeyEvent>|
            #[trigger] m.contains_key(k1) && #[trigger] m.contains_key(k2) && k1.is_prefix_of(k2)
                ==> k1 == k2,
    ensures
        feed_keys(m, start_state::<A>(), k).passed == Seq::<KeyEvent>::empty(),
        feed_keys(m, start_state::<A>(), k).actions == seq![m[k]],
        feed_keys(m, start_state::<A>(), k).buf == Seq::<KeyEvent>::empty(),
{
    assert forall|p: Seq<KeyEvent>| p.is_prefix_of(k) && p.len() < k.len() implies !(
    #[trigger] m.contains_key(p)) by {
        if m.contains_key(p) {
            assert(p == k);
        }
    }
    let j = k.len() - 1;
    lemma_feed_prefix_of_binding::<A>(m, k, j);
    let st = feed_keys(m, start_state::<A>(), k.take(j));
    let e = k[j];
    assert(k =~= k.take(j).push(e));
    lemma_feed_keys_snoc(m, start_state::<A>(), k.take(j), e);
    assert(feed_keys(m, start_state::<A>(), k) == feed_one(m, st, e));
    let b = st.buf.push(e);
    assert(b =~= k);
    assert(matched(m, b));
    assert(classifies(m, b.skip(0))) by {
        assert(b.skip(0) =~= b);
    }
    lemma_skip_count_is(m, b, 0);
    assert(b.skip(0) =~= b);
    assert(step_matched(m, b));
    assert(step_passthrough(m, b) == b.take(0));
    assert(b.take(0) =~= Seq::<KeyEvent>::empty());
    assert(feed_one(m, st, e).passed =~= Seq::<KeyEvent>::empty());
    assert(feed_one(m, st, e).actions =~= seq![m[b.skip(0)]]);
    assert(m[b.skip(0)] == m[k]);
}

/// Immediate-flush law: a single key that neither matches nor prefixes any
/// binding passes through at once, with no action and nothing left
/// buffered. No waiting is involved: this is the direct outcome of the
/// step that saw the key.
pub proof fn lemma_unmatched_key_passes_through<A>(
    m: Map<Seq<KeyEvent>, A>,
    st: FeedOutcome<A>,
    e: KeyEvent,
)
    requires
        st.buf == Seq::<KeyEvent>::empty(),
        !classifies(m, seq![e]),
    ensures
        feed_one(m, st, e).passed == st.passed + seq![e],
        feed_one(m, st, e).actions == st.actions,
        feed_one(m, st, e).buf == Seq::<KeyEvent>::empty(),
{
    let b = st.buf.push(e);
    assert(b =~= seq![e]);
    assert(!classifies(m, b));
    assert(b.skip(1) =~= Seq::<KeyEvent>::empty());
    assert(b.len() == 1);
    assert(skip_count(m, b) == 1 + skip_count(m, b.skip(1)));
    assert(skip_count(m, b.skip(1)) == 0);
    assert(skip_count(m, b) == 1);
    assert(!step_matched(m, b));
    assert(step_passthrough(m, b) == b.take(1));
    assert(b.take(1) =~= seq![e]);
    assert(feed_one(m, st, e).passed =~= st.passed + seq![e]);
    assert(feed_one(m, st, e).actions =~= st.actions);
    assert(feed_one(m, st, e).buf =~= Seq::<KeyEvent>::empty());
}

/// Ambiguity law: let `k` be a strict prefix of a binding `k2`, with no
/// strict prefix of `k2` bound itself. Feeding `k` alone emits nothing and
/// leaves exactly `k` buffered, and the timeout then passes exactly `k`
/// through with no action; feeding all of `k2` (each key within the
/// timeout) emits no passthrough and resolves exactly `k2`'s action.
pub proof fn lemma_ambiguous_prefix_resolution<A>(
    m: Map<Seq<KeyEvent>, A>,
    k: Seq<KeyEvent>,
    k2: Seq<KeyEvent>,
)
    requires
        m.contains_key(k2),
        k.is_prefix_of(k2),
        k.len() < k2.len(),
        forall|p: Seq<KeyEvent>|
            p.is_prefix_of(k2) && p.len() < k2.len() ==> !(#[trigger] m.contains_key(p)),
    ensures
        feed_keys(m, start_state::<A>(), k).passed == Seq::<KeyEvent>::empty(),
        feed_keys(m, start_state::<A>(), k).actions == Seq::<A>::empty(),
        feed_keys(m, start_state::<A>(), k).buf == k,
        feed_timeout(m, feed_keys(m, start_state::<A>(), k)).passed == k,
        feed_timeout(m, feed_keys(m, start_state::<A>(), k)).actions == Seq::<A>::empty(),
        feed_keys(m, start_state::<A>(), k2).passed == Seq::<KeyEvent>::empty(),
        feed_keys(m, start_state::<A>(), k2).actions == seq![m[k2]],
        feed_keys(m, start_state::<A>(), k2).buf == Seq::<KeyEvent>::empty(),
{
    assert(k =~= k2.take(k.len() as int));
    lemma_feed_prefix_of_binding::<A>(m, k2, k.len() as int);
    let after_k = feed_keys(m, start_state::<A>(), k);
    assert(after_k.passed + after_k.buf =~= k);
    let j = k2.len() - 1;
    lemma_feed_prefix_of_binding::<A>(m, k2, j);
    let st = feed_keys(m, start_state::<A>(), k2.take(j));
    let e = k2[j];
    assert(k2 =~= k2.take(j).push(e));
    lemma_feed_keys_snoc(m, start_state::<A>(), k2.take(j), e);
    assert(feed_keys(m, start_state::<A>(), k2) == feed_one(m, st, e));
    let b = st.buf.push(e);
    assert(b =~= k2);
    assert(matched(m, b));
    assert(classifies(m, b.skip(0))) by {
        assert(b.skip(0) =~= b);
    }
    lemma_skip_count_is(m, b, 0);
    assert(b.skip(0) =~= b);
    assert(step_matched(m, b));
    assert(step_passthrough(m, b) == b.take(0));
    assert(b.take(0) =~= Seq::<KeyEvent>::empty());
    assert(feed_one(m, st, e).passed =~= Seq::<KeyEvent>::empty());
    assert(feed_one(m, st, e).actions =~= seq![m[b.skip(0)]]);
    assert(m[b.skip(0)] == m[k2]);
}

proof fn lemma_feed_one_frame<A>(m: Map<Seq<KeyEvent>, A>, st: FeedOutcome<A>, e: KeyEvent)
    ensures
        ({
            let base = FeedOutcome {
                buf: st.buf,
                passed: Seq::<KeyEvent>::empty(),
                handled: Seq::<KeyEvent>::empty(),
                actions: Seq::<A>::empty(),
            };
            let o = feed_one(m, base, e);
            feed_one(m, st, e) == (FeedOutcome {
                buf: o.buf,
                passed: st.passed + o.passed,
                handled: st.handled + o.handled,
                actions: st.actions + o.actions,
            })
        }),
{
    let base = FeedOutcome {
        buf: st.buf,
        passed: Seq::<KeyEvent>::empty(),
        handled: Seq::<KeyEvent>::empty(),
        actions: Seq::<A>::empty(),
    };
    let o = feed_one(m, base, e);
    assert(feed_one(m, st, e).passed =~= st.passed + o.passed);
    assert(feed_one(m, st, e).handled =~= st.handled + o.handled);
    assert(feed_one(m, st, e).actions =~= st.actions + o.actions);
}

/// What a run emits depends only on the buffer it starts from: earlier
/// emissions are a frame that later keys only append to.
proof fn lemma_feed_keys_frame<A>(m: Map<Seq<KeyEvent>, A>, st: FeedOutcome<A>, keys: Seq<KeyEvent>)
    ensures
        ({
            let base = FeedOutcome {
                buf: st.buf,
                passed: Seq::<KeyEvent>::empty(),
                handled: Seq::<KeyEvent>::empty(),
                actions: Seq::<A>::empty(),
            };
            let o = feed_keys(m, base, keys);
            feed_keys(m, st, keys) == (FeedOutcome {
                buf: o.buf,
                passed: st.passed + o.passed,
                handled: st.handled + o.handled,
                actions: st.actions + o.actions,
            })
        }),
    decreases keys.len(),
{
    let base = FeedOutcome {
        buf: st.buf,
        passed: Seq::<KeyEvent>::empty(),
        handled: Seq::<KeyEvent>::empty(),
        actions: Seq::<A>::empty(),
    };
    if keys.len() == 0 {
        assert(feed_keys(m, st, keys) == st);
        assert(st.passed + Seq::<KeyEvent>::empty() =~= st.passed);
        assert(st.handled + Seq::<KeyEvent>::empty() =~= st.handled);
        assert(st.actions + Seq::<A>::empty() =~= st.actions);
    } else {
        let e = keys.first();
        lemma_feed_one_frame(m, st, e);
        lemma_feed_one_frame(m, base, e);
        let st1 = feed_one(m, st, e);
        let base1 = feed_one(m, base, e);
        lemma_feed_keys_frame(m, st1, keys.drop_first());
        lemma_feed_keys_frame(m, base1, keys.drop_first());
        let base1r = FeedOutcome {
            buf: st1.buf,
            passed: Seq::<KeyEvent>::empty(),
            handled: Seq::<KeyEvent>::empty(),
            actions: Seq::<A>::empty(),
        };
        let o1 = feed_keys(m, base1r, keys.drop_first());
        assert(base1.buf == st1.buf);
        assert(feed_keys(m, st, keys).passed =~= st.passed + feed_keys(m, base, keys).passed);
        assert(feed_keys(m, st, keys).handled =~= st.handled + feed_keys(m, base, keys).handled);
        assert(feed_keys(m, st, keys).actions =~= st.actions + feed_keys(m, base, keys).actions);
        assert(feed_keys(m, st, keys).buf == feed_keys(m, base, keys).buf);
    }
}

/// Idempotence law: a run that resolves completely (ends with an empty
/// buffer) leaves no residual state behind. Feeding the same keys again
/// emits exactly the same passthrough and the same actions a second time.
pub proof fn lemma_resolution_is_idempotent<A>(m: Map<Seq<KeyEvent>, A>, keys: Seq<KeyEvent>)
    requires
        feed_keys(m, start_state::<A>(), keys).buf == Seq::<KeyEvent>::empty(),
    ensures
        feed_keys(m, start_state::<A>(), keys + keys).passed == feed_keys(
            m,
            start_state::<A>(),
            keys,
        ).passed + feed_keys(m, start_state::<A>(), keys).passed,
        feed_keys(m, start_state::<A>(), keys + keys).actions == feed_keys(
            m,
            start_state::<A>(),
            keys,
        ).actions + feed_keys(m, start_state::<A>(), keys).actions,
        feed_keys(m, start_state::<A>(), keys + keys).buf == Seq::<KeyEvent>::empty(),
{
    let once = feed_keys(m, start_state::<A>(), keys);
    lemma_feed_keys_append(m, start_state::<A>(), keys, keys);
    lemma_feed_keys_frame(m, once, keys);
    let base = FeedOutcome {
        buf: once.buf,
        passed: Seq::<KeyEvent>::empty(),
        handled: Seq::<KeyEvent>::empty(),
        actions: Seq::<A>::empty(),
    };
    assert(base.buf == start_state::<A>().buf);
    lemma_feed_keys_frame(m, base, keys);
    let o = feed_keys(m, base, keys);
    let from_start = feed_keys(m, start_state::<A>(), keys);
    assert(o.passed =~= from_start.passed);
    assert(o.actions =~= from_start.actions);
    assert(o.buf == from_start.buf);
}

} // verus!
