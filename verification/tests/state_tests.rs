use carrier_pigeon::keys::{KeyCode, KeyEvent};
use carrier_pigeon::message::{Message, MessageBody, MessageKey, RichText, Room, User};
use carrier_pigeon::modes::{Action, Mode, State};
use carrier_pigeon::resolver::{KeymapHandler, ResolverEvent};

fn key(c: char) -> KeyEvent {
    KeyEvent::plain(KeyCode::Char(c))
}

fn message(timestamp: i64, identifier: &str, text: &str) -> Message {
    Message {
        key: MessageKey {
            timestamp,
            identifier: identifier.to_string(),
        },
        sender: User {
            display_name: "alice".to_string(),
            identifier: "@alice:example.com".to_string(),
        },
        room: Room {
            display_name: "general".to_string(),
            identifier: "!general".to_string(),
        },
        body: MessageBody::Text(RichText(text.to_string())),
    }
}

#[test]
fn default_state_starts_in_message_list_mode() {
    let state = State::default();
    assert!(!state.stopped);
    assert_eq!(state.mode, Mode::MessageList);
    assert!(state.messages.messages().is_empty());
}

#[test]
fn built_in_bindings_resolve_to_their_actions() {
    let state = State::default();
    let km = state.active_keymap();
    assert_eq!(km.timeout_ms(), 500);
    assert!(matches!(km.get(&vec![key('q')]), Some(Some(Action::Quit))));
    assert!(matches!(km.get(&vec![key('j')]), Some(Some(Action::SelectMessage(_)))));
    assert!(matches!(km.get(&vec![key('g')]), Some(None)));
    assert!(matches!(
        km.get(&vec![key('d'), key('d')]),
        Some(Some(Action::DeleteSelectedMessage))
    ));
    assert!(matches!(km.get(&vec![key('z')]), None));
}

#[test]
fn quit_action_stops_the_state() {
    let mut state = State::default();
    state.handle_key_event(&Vec::new(), Some(Action::Quit));
    assert!(state.stopped);
}

#[test]
fn resolved_keys_drive_the_message_list() {
    let mut state = State::default();
    state.handle_message(message(10, "a", "first"));
    state.handle_message(message(20, "b", "second"));

    let mut handler = KeymapHandler::new();
    // Press 'j': selects the next message.
    let keymaps = State::default().keymaps;
    let (keys, action) = handler
        .next_cloned(keymaps.active_keymap(state.mode), ResolverEvent::Key(key('j')))
        .unwrap();
    assert!(keys.is_empty());
    state.handle_key_event(&keys, action);
    assert_eq!(state.messages.selected_index(), Some(1));

    // Press 'd' twice: deletes the selection.
    let (keys, action) = handler
        .next_cloned(keymaps.active_keymap(state.mode), ResolverEvent::Key(key('d')))
        .unwrap();
    state.handle_key_event(&keys, action);
    let (keys, action) = handler
        .next_cloned(keymaps.active_keymap(state.mode), ResolverEvent::Key(key('d')))
        .unwrap();
    assert!(matches!(action, Some(Action::DeleteSelectedMessage)));
    state.handle_key_event(&keys, action);
    assert_eq!(state.messages.messages().len(), 1);
    assert_eq!(state.messages.selected_index(), Some(0));
}

#[test]
fn incoming_messages_select_the_first_arrival() {
    let mut state = State::default();
    state.handle_message(message(20, "b", "second"));
    assert_eq!(state.messages.selected_index(), Some(0));
    state.handle_message(message(10, "a", "first"));
    // The selection follows its message when an earlier one arrives.
    assert_eq!(state.messages.selected_index(), Some(1));
}
