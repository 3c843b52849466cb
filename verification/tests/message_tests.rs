use carrier_pigeon::fake_messages::generate_message;
use carrier_pigeon::message::{
    Message, MessageBody, MessageKey, MessageList, RichText, Room, User,
};
use carrier_pigeon::message_list::{MessageListView, MessageSelector};

fn message(timestamp: i64, identifier: &str, text: &str) -> Message {
    Message {
        key: MessageKey {
            timestamp,
            identifier: identifier.to_string(),
        },
        sender: User {
            display_name: "alice".to_string(),
            identifier: "@alice:example.com".to_string(),
        },
        room: Room {
            display_name: "general".to_string(),
            identifier: "!general".to_string(),
        },
        body: MessageBody::Text(RichText(text.to_string())),
    }
}

fn body_text(m: &Message) -> &str {
    let MessageBody::Text(RichText(text)) = &m.body;
    text
}

#[test]
fn list_iterates_in_key_order() {
    let mut list = MessageList::new();
    list.insert(message(30, "c", "third"));
    list.insert(message(10, "a", "first"));
    list.insert(message(20, "b", "second"));
    let texts: Vec<&str> = list.iter().iter().map(body_text).collect();
    assert_eq!(texts, vec!["first", "second", "third"]);
}

#[test]
fn equal_timestamps_order_by_identifier() {
    let mut list = MessageList::new();
    list.insert(message(10, "zz", "later"));
    list.insert(message(10, "aa", "earlier"));
    let texts: Vec<&str> = list.iter().iter().map(body_text).collect();
    assert_eq!(texts, vec!["earlier", "later"]);
}

#[test]
fn same_key_displaces_the_old_message() {
    let mut list = MessageList::new();
    assert!(list.insert(message(10, "a", "old")).is_none());
    let displaced = list.insert(message(10, "a", "new")).unwrap();
    assert_eq!(body_text(&displaced), "old");
    assert_eq!(list.len(), 1);
    assert_eq!(body_text(&list.iter()[0]), "new");
}

#[test]
fn message_key_copies_the_key() {
    let m = message(42, "id", "hello");
    let k = m.key();
    assert_eq!(k.timestamp, 42);
    assert_eq!(k.identifier, "id".to_string());
}

#[test]
fn generated_message_carries_its_ingredients() {
    let rooms = vec![
        Room {
            display_name: "general".to_string(),
            identifier: "!general".to_string(),
        },
        Room {
            display_name: "random".to_string(),
            identifier: "!random".to_string(),
        },
    ];
    let users = vec![
        User {
            display_name: "alice".to_string(),
            identifier: "@alice:example.com".to_string(),
        },
        User {
            display_name: "bob".to_string(),
            identifier: "@bob:example.com".to_string(),
        },
    ];
    let m = generate_message(
        &rooms,
        &users,
        1,
        0,
        1234,
        "msg-id".to_string(),
        "hello there".to_string(),
    );
    assert_eq!(m.key.timestamp, 1234);
    assert_eq!(m.key.identifier, "msg-id".to_string());
    assert_eq!(m.sender.display_name, "alice".to_string());
    assert_eq!(m.room.display_name, "random".to_string());
    assert_eq!(body_text(&m), "hello there");
}

#[test]
fn first_insert_selects_the_new_message() {
    let mut view = MessageListView::default();
    assert!(view.selected().is_none());
    view.insert(message(10, "a", "first"));
    assert_eq!(view.selected_index(), Some(0));
    assert_eq!(body_text(view.selected().unwrap()), "first");
}

#[test]
fn earlier_insert_keeps_the_selection_on_its_message() {
    let mut view = MessageListView::default();
    view.insert(message(20, "b", "selected"));
    view.insert(message(10, "a", "earlier"));
    // The earlier message lands before the cursor, which follows its
    // message to the new index.
    assert_eq!(view.selected_index(), Some(1));
    assert_eq!(body_text(view.selected().unwrap()), "selected");
}

#[test]
fn selectors_move_the_cursor() {
    let mut view = MessageListView::default();
    view.insert(message(10, "a", "first"));
    view.insert(message(20, "b", "second"));
    view.insert(message(30, "c", "third"));

    view.select(MessageSelector::FromStart(0));
    assert_eq!(body_text(view.selected().unwrap()), "first");

    view.select(MessageSelector::Relative(1));
    assert_eq!(body_text(view.selected().unwrap()), "second");

    view.select(MessageSelector::Relative(-1));
    assert_eq!(body_text(view.selected().unwrap()), "first");

    view.select(MessageSelector::FromEnd(0));
    assert_eq!(body_text(view.selected().unwrap()), "third");

    // A relative move off the end leaves the cursor alone.
    view.select(MessageSelector::Relative(5));
    assert_eq!(body_text(view.selected().unwrap()), "third");
    view.select(MessageSelector::Relative(-7));
    assert_eq!(body_text(view.selected().unwrap()), "third");

    // A from-start position beyond the list deselects.
    view.select(MessageSelector::FromStart(9));
    assert!(view.selected().is_none());

    // A positive relative move from nothing selects from the start.
    view.select(MessageSelector::Relative(2));
    assert_eq!(body_text(view.selected().unwrap()), "second");
}

#[test]
fn deleting_the_selection_moves_to_the_successor() {
    let mut view = MessageListView::default();
    view.insert(message(10, "a", "first"));
    view.insert(message(20, "b", "second"));
    view.insert(message(30, "c", "third"));
    view.select(MessageSelector::FromStart(1));
    view.delete_selected();
    assert_eq!(view.messages().len(), 2);
    assert_eq!(body_text(view.selected().unwrap()), "third");
    // Deleting the last message falls back to the one before it.
    view.delete_selected();
    assert_eq!(body_text(view.selected().unwrap()), "first");
    view.delete_selected();
    assert!(view.selected().is_none());
    assert!(view.messages().is_empty());
}

#[test]
fn deleting_an_unselected_message_keeps_the_selection() {
    let mut view = MessageListView::default();
    view.insert(message(10, "a", "first"));
    view.insert(message(20, "b", "second"));
    view.select(MessageSelector::FromEnd(0));
    let key = MessageKey {
        timestamp: 10,
        identifier: "a".to_string(),
    };
    view.delete(&key);
    assert_eq!(view.messages().len(), 1);
    assert_eq!(body_text(view.selected().unwrap()), "second");
}
