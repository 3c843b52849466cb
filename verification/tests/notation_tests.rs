use carrier_pigeon::keys::{KeyCode, KeyEvent, Modifiers};
use carrier_pigeon::notation::parse_key_sequence;

fn plain(code: KeyCode) -> KeyEvent {
    KeyEvent::plain(code)
}

#[test]
fn single_characters() {
    let keys = parse_key_sequence("j").unwrap();
    assert_eq!(keys, vec![plain(KeyCode::Char('j'))]);

    let keys = parse_key_sequence("gg").unwrap();
    assert_eq!(
        keys,
        vec![plain(KeyCode::Char('g')), plain(KeyCode::Char('g'))]
    );

    let keys = parse_key_sequence("q1").unwrap();
    assert_eq!(
        keys,
        vec![plain(KeyCode::Char('q')), plain(KeyCode::Char('1'))]
    );
}

#[test]
fn unicode_characters_are_alphanumeric() {
    let keys = parse_key_sequence("é").unwrap();
    assert_eq!(keys, vec![plain(KeyCode::Char('é'))]);
}

#[test]
fn punctuation_is_rejected() {
    let err = parse_key_sequence(".").unwrap_err();
    assert_eq!(err.offset, 0);
}

#[test]
fn shifted_character() {
    let keys = parse_key_sequence("<S-G>").unwrap();
    assert_eq!(keys.len(), 1);
    assert_eq!(keys[0].code, KeyCode::Char('G'));
    assert_eq!(keys[0].modifiers.bits, carrier_pigeon::keys::MOD_SHIFT);
}

#[test]
fn bare_special_keys() {
    assert_eq!(parse_key_sequence("<Esc>").unwrap(), vec![plain(KeyCode::Escape)]);
    assert_eq!(parse_key_sequence("<CR>").unwrap(), vec![plain(KeyCode::Enter)]);
    assert_eq!(parse_key_sequence("<BS>").unwrap(), vec![plain(KeyCode::Backspace)]);
    assert_eq!(parse_key_sequence("<PageUp>").unwrap(), vec![plain(KeyCode::PageUp)]);
    assert_eq!(parse_key_sequence("<PageDown>").unwrap(), vec![plain(KeyCode::PageDown)]);
    assert_eq!(parse_key_sequence("<Del>").unwrap(), vec![plain(KeyCode::Delete)]);
}

#[test]
fn function_keys() {
    assert_eq!(parse_key_sequence("<12>").unwrap(), vec![plain(KeyCode::F(12))]);
    assert_eq!(parse_key_sequence("<0>").unwrap(), vec![plain(KeyCode::F(0))]);
    assert_eq!(parse_key_sequence("<255>").unwrap(), vec![plain(KeyCode::F(255))]);
    assert_eq!(parse_key_sequence("<007>").unwrap(), vec![plain(KeyCode::F(7))]);
    assert!(parse_key_sequence("<256>").is_err());
}

#[test]
fn modified_keys() {
    let keys = parse_key_sequence("<C-x>").unwrap();
    assert_eq!(keys[0].code, KeyCode::Char('x'));
    assert_eq!(keys[0].modifiers.bits, carrier_pigeon::keys::MOD_CONTROL);

    let keys = parse_key_sequence("<A-CR>").unwrap();
    assert_eq!(keys[0].code, KeyCode::Enter);
    assert_eq!(keys[0].modifiers.bits, carrier_pigeon::keys::MOD_ALT);

    let keys = parse_key_sequence("<C-Left>").unwrap();
    assert_eq!(keys[0].code, KeyCode::Left);
    assert_eq!(keys[0].modifiers.bits, carrier_pigeon::keys::MOD_CONTROL);

    let keys = parse_key_sequence("<S-Del>").unwrap();
    assert_eq!(keys[0].code, KeyCode::Delete);
    assert_eq!(keys[0].modifiers.bits, carrier_pigeon::keys::MOD_SHIFT);

    // A bare number after modifiers denotes a function key.
    let keys = parse_key_sequence("<C-5>").unwrap();
    assert_eq!(keys[0].code, KeyCode::F(5));
    assert_eq!(keys[0].modifiers.bits, carrier_pigeon::keys::MOD_CONTROL);

    let keys = parse_key_sequence("<ACMS-x>").unwrap();
    assert_eq!(
        keys[0].modifiers.bits,
        carrier_pigeon::keys::MOD_ALT
            | carrier_pigeon::keys::MOD_CONTROL
            | carrier_pigeon::keys::MOD_META
            | carrier_pigeon::keys::MOD_SHIFT
    );
}

#[test]
fn sequences_of_tokens() {
    let keys = parse_key_sequence("<S-G>j").unwrap();
    assert_eq!(keys.len(), 2);
    assert_eq!(keys[0].code, KeyCode::Char('G'));
    assert_eq!(keys[1], plain(KeyCode::Char('j')));
}

#[test]
fn malformed_strings_report_the_failing_offset() {
    assert_eq!(parse_key_sequence("").unwrap_err().offset, 0);
    assert_eq!(parse_key_sequence("<").unwrap_err().offset, 0);
    assert_eq!(parse_key_sequence("g<").unwrap_err().offset, 1);
    assert_eq!(parse_key_sequence("<G>").unwrap_err().offset, 0);
    assert_eq!(parse_key_sequence("<AC>").unwrap_err().offset, 0);
    assert_eq!(parse_key_sequence("gg.").unwrap_err().offset, 2);
    assert_eq!(parse_key_sequence("<C->").unwrap_err().offset, 0);
}

#[test]
fn key_events_order_by_code_then_modifiers() {
    let a = plain(KeyCode::Char('a'));
    let b = plain(KeyCode::Char('b'));
    // Characters order by code point, and every character sorts before
    // the special keys.
    assert!(a < b);
    assert!(b < plain(KeyCode::Backspace));
    assert!(plain(KeyCode::Backspace) < plain(KeyCode::Delete));
    assert!(plain(KeyCode::F(1)) < plain(KeyCode::F(2)));
    assert!(plain(KeyCode::F(255)) < plain(KeyCode::Unknown));
    // Equal codes order by the modifier bit pattern.
    let shifted = KeyEvent::new(KeyCode::Char('a'), Modifiers::empty().with_shift());
    assert!(a < shifted);
    // Equality is agreement in both fields.
    assert_eq!(a, KeyEvent::from(KeyCode::Char('a')));
    assert!(!(a < a) && !(shifted < a.clone()));
}
