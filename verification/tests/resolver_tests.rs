use carrier_pigeon::keymap::Keymap;
use carrier_pigeon::keys::{KeyCode, KeyEvent};
use carrier_pigeon::notation::parse_key_sequence;
use carrier_pigeon::resolver::{KeymapHandler, ResolverEvent};

#[derive(Debug, Clone, Copy, PartialEq, Eq)]
enum Act {
    SelectNext,
    SelectFirst,
    DeleteSelected,
}

fn key(c: char) -> KeyEvent {
    KeyEvent::plain(KeyCode::Char(c))
}

/// The keymap of the concrete scenario: `j`, `gg` and `dd` bound, with a
/// half-second timeout.
fn scenario_keymap() -> Keymap<Act> {
    let mut km: Keymap<Act> = Keymap::with_timeout(500);
    km.insert(parse_key_sequence("j").unwrap(), Act::SelectNext);
    km.insert(parse_key_sequence("gg").unwrap(), Act::SelectFirst);
    km.insert(parse_key_sequence("dd").unwrap(), Act::DeleteSelected);
    km
}

#[test]
fn keymap_classifies_three_ways() {
    let km = scenario_keymap();
    assert_eq!(km.timeout_ms(), 500);
    // Exact match.
    assert!(matches!(km.get(&vec![key('j')]), Some(Some(Act::SelectNext))));
    // Ambiguous prefix: bound only as the start of "gg".
    assert!(matches!(km.get(&vec![key('g')]), Some(None)));
    // No match at all.
    assert!(matches!(km.get(&vec![key('x')]), None));
    assert!(matches!(km.get(&vec![key('g'), key('x')]), None));
}

#[test]
fn keymap_insert_overwrites_same_sequence() {
    let mut km: Keymap<Act> = Keymap::default();
    km.insert(vec![key('a')], Act::SelectNext);
    km.insert(vec![key('a')], Act::SelectFirst);
    assert!(matches!(km.get(&vec![key('a')]), Some(Some(Act::SelectFirst))));
}

#[test]
fn ambiguous_prefix_waits_then_times_out() {
    // Input 'g', then nothing for longer than the timeout: passthrough
    // of exactly ['g'], no action.
    let km = scenario_keymap();
    let mut handler = KeymapHandler::new();
    assert!(!handler.has_pending());
    let (pass, act) = handler.next_cloned(&km, ResolverEvent::Key(key('g'))).unwrap();
    assert_eq!(pass, Vec::<KeyEvent>::new());
    assert_eq!(act, None);
    assert!(handler.has_pending());
    let (pass, act) = handler.next_cloned(&km, ResolverEvent::TimedOut).unwrap();
    assert_eq!(pass, vec![key('g')]);
    assert_eq!(act, None);
    assert!(!handler.has_pending());
}

#[test]
fn full_chord_fires_its_action() {
    // Input 'g' then 'g' in time: no passthrough, the bound action.
    let km = scenario_keymap();
    let mut handler = KeymapHandler::new();
    let (pass, act) = handler.next_cloned(&km, ResolverEvent::Key(key('g'))).unwrap();
    assert!(pass.is_empty() && act.is_none());
    let (pass, act) = handler.next_cloned(&km, ResolverEvent::Key(key('g'))).unwrap();
    assert_eq!(pass, Vec::<KeyEvent>::new());
    assert_eq!(act, Some(Act::SelectFirst));
    assert!(!handler.has_pending());
}

#[test]
fn prefix_flushes_when_it_cannot_extend() {
    // Input 'd' then 'j': 'd' can only grow into "dd", so on seeing 'j'
    // the 'd' passes through and 'j' resolves by itself, in one step.
    let km = scenario_keymap();
    let mut handler = KeymapHandler::new();
    let (pass, act) = handler.next_cloned(&km, ResolverEvent::Key(key('d'))).unwrap();
    assert!(pass.is_empty() && act.is_none());
    let (pass, act) = handler.next_cloned(&km, ResolverEvent::Key(key('j'))).unwrap();
    assert_eq!(pass, vec![key('d')]);
    assert_eq!(act, Some(Act::SelectNext));
    assert!(!handler.has_pending());
}

#[test]
fn unmatched_key_passes_through_immediately() {
    // A key that neither matches nor prefixes anything comes straight
    // back as passthrough, with no action and nothing buffered.
    let km = scenario_keymap();
    let mut handler = KeymapHandler::new();
    let (pass, act) = handler.next_cloned(&km, ResolverEvent::Key(key('x'))).unwrap();
    assert_eq!(pass, vec![key('x')]);
    assert_eq!(act, None);
    assert!(!handler.has_pending());
}

#[test]
fn exact_match_under_non_overlapping_keymap() {
    // A bound sequence fed one event at a time: no passthrough on the
    // way, exactly one action at the end.
    let mut km: Keymap<Act> = Keymap::default();
    km.insert(vec![key('a'), key('b')], Act::SelectNext);
    km.insert(vec![key('c')], Act::SelectFirst);
    let mut handler = KeymapHandler::new();
    let (pass, act) = handler.next_cloned(&km, ResolverEvent::Key(key('a'))).unwrap();
    assert!(pass.is_empty() && act.is_none());
    let (pass, act) = handler.next_cloned(&km, ResolverEvent::Key(key('b'))).unwrap();
    assert!(pass.is_empty());
    assert_eq!(act, Some(Act::SelectNext));
}

#[test]
fn resolution_leaves_no_residue() {
    // Resolving a chord empties the buffer; the same chord then resolves
    // the same way again.
    let km = scenario_keymap();
    let mut handler = KeymapHandler::new();
    for _ in 0..2 {
        let (pass, act) = handler.next_cloned(&km, ResolverEvent::Key(key('d'))).unwrap();
        assert!(pass.is_empty() && act.is_none());
        let (pass, act) = handler.next_cloned(&km, ResolverEvent::Key(key('d'))).unwrap();
        assert!(pass.is_empty());
        assert_eq!(act, Some(Act::DeleteSelected));
        assert!(!handler.has_pending());
    }
}

#[test]
fn outputs_reproduce_the_input_in_order() {
    // Over an arbitrary interleaving, passthrough keys plus the keys
    // consumed by actions, in emission order, are exactly the input.
    let km = scenario_keymap();
    let mut handler = KeymapHandler::new();
    let input = vec![
        key('x'),
        key('g'),
        key('d'),
        key('d'),
        key('g'),
        key('g'),
        key('q'),
    ];
    let mut accounted: Vec<KeyEvent> = Vec::new();
    let mut buffered_before: Vec<KeyEvent> = Vec::new();
    for &k in &input {
        let (pass, act) = handler.next_cloned(&km, ResolverEvent::Key(k)).unwrap();
        buffered_before.push(k);
        accounted.extend(pass.iter().copied());
        if act.is_some() {
            // The action consumed everything still buffered.
            let consumed = buffered_before.len() - accounted.len();
            let start = buffered_before.len() - consumed;
            accounted.extend(buffered_before[start..].iter().copied());
        }
    }
    // Flush whatever is still pending.
    let (pass, act) = handler.next_cloned(&km, ResolverEvent::TimedOut).unwrap();
    assert!(act.is_none());
    accounted.extend(pass.iter().copied());
    assert_eq!(accounted, input);
}

#[test]
fn closed_stream_ends_the_resolver() {
    let km = scenario_keymap();
    let mut handler = KeymapHandler::new();
    assert!(handler.next_cloned(&km, ResolverEvent::Closed).is_none());
}

#[test]
fn borrowing_next_returns_the_bound_action() {
    let km = scenario_keymap();
    let mut handler = KeymapHandler::new();
    let outcome = handler.next(&km, ResolverEvent::Key(key('j')));
    let (pass, act) = outcome.unwrap();
    assert!(pass.is_empty());
    assert_eq!(act, Some(&Act::SelectNext));
}
