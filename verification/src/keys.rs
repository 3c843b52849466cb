//! Key events: a canonical model of "a key plus a set of modifiers",
//! independent of any terminal-input library, with a total order.

use vstd::prelude::*;

verus! {

/// A set of keyboard modifiers, stored as a bit pattern.
///
/// Each supported modifier occupies one bit; the numeric value of the whole
/// pattern is what orders two modifier sets.
#[derive(Clone, Copy, Debug, PartialEq, Eq, Structural)]
pub struct Modifiers {
    pub bits: u8,
}

pub const MOD_ALT: u8 = 1;

pub const MOD_CONTROL: u8 = 2;

pub const MOD_META: u8 = 4;

pub const MOD_SHIFT: u8 = 8;

impl Modifiers {
    /// The empty modifier set.
    pub fn empty() -> (r: Self)
        ensures
            r.bits == 0,
    {
        Modifiers { bits: 0 }
    }

    pub fn with_alt(self) -> (r: Self)
        ensures
            r.bits == self.bits | MOD_ALT,
    {
        Modifiers { bits: self.bits | MOD_ALT }
    }

    pub fn with_control(self) -> (r: Self)
        ensures
            r.bits == self.bits | MOD_CONTROL,
    {
        Modifiers { bits: self.bits | MOD_CONTROL }
    }

    pub fn with_meta(self) -> (r: Self)
        ensures
            r.bits == self.bits | MOD_META,
    {
        Modifiers { bits: self.bits | MOD_META }
    }

    pub fn with_shift(self) -> (r: Self)
        ensures
            r.bits == self.bits | MOD_SHIFT,
    {
        Modifiers { bits: self.bits | MOD_SHIFT }
    }
}

/// The closed set of key codes this system models. Any externally-sourced
/// code outside this set maps to `Unknown`.
#[derive(Clone, Copy, Debug, PartialEq, Eq, Structural)]
pub enum KeyCode {
    Char(char),
    Backspace,
    Delete,
    Enter,
    Left,
    Right,
    Up,
    Down,
    Home,
    End,
    PageUp,
    PageDown,
    Tab,
    Insert,
    Escape,
    F(u8),
    Unknown,
}

/// The rank of a key code's variant: the primary key of the total order on
/// key codes. `Char` sorts first, `Unknown` last.
pub open spec fn code_rank(c: KeyCode) -> int {
    match c {
        KeyCode::Char(_) => 0,
        KeyCode::Backspace => 1,
        KeyCode::Delete => 2,
        KeyCode::Enter => 3,
        KeyCode::Left => 4,
        KeyCode::Right => 5,
        KeyCode::Up => 6,
        KeyCode::Down => 7,
        KeyCode::Home => 8,
        KeyCode::End => 9,
        KeyCode::PageUp => 10,
        KeyCode::PageDown => 11,
        KeyCode::Tab => 12,
        KeyCode::Insert => 13,
        KeyCode::Escape => 14,
        KeyCode::F(_) => 15,
        KeyCode::Unknown => 16,
    }
}

/// The payload of a key code, as an integer: the secondary key of the total
/// order. `Char` compares by code point, `F` by numeric value.
pub open spec fn code_payload(c: KeyCode) -> int {
    match c {
        KeyCode::Char(ch) => ch as int,
        KeyCode::F(n) => n as int,
        _ => 0,
    }
}

/// The strict total order on key codes: by variant rank, then by payload.
pub open spec fn code_lt(a: KeyCode, b: KeyCode) -> bool {
    code_rank(a) < code_rank(b) || (code_rank(a) == code_rank(b) && code_payload(a)
        < code_payload(b))
}

/// A key plus a modifier set. Two key events are equal exactly when both
/// fields are; in this model the modifier set is its bit pattern, so the
/// comparator's notion of equality and structural equality coincide.
#[derive(Clone, Copy, Debug, PartialEq, Eq, Structural)]
pub struct KeyEvent {
    pub code: KeyCode,
    pub modifiers: Modifiers,
}

/// The strict total order on key events: primary key the code's order,
/// secondary key the modifier set's bit-pattern value.
pub open spec fn key_event_lt(a: KeyEvent, b: KeyEvent) -> bool {
    code_lt(a.code, b.code) || (a.code == b.code && a.modifiers.bits < b.modifiers.bits)
}

impl KeyEvent {
    /// A key event with the given code and no modifiers.
    pub fn plain(code: KeyCode) -> (r: Self)
        ensures
            r.code == code,
            r.modifiers.bits == 0,
    {
        KeyEvent { code, modifiers: Modifiers::empty() }
    }

    /// A key event with the given code and modifiers.
    pub fn new(code: KeyCode, modifiers: Modifiers) -> (r: Self)
        ensures
            r.code == code,
            r.modifiers == modifiers,
    {
        KeyEvent { code, modifiers }
    }
}

impl From<KeyCode> for KeyEvent {
    fn from(code: KeyCode) -> (r: Self) {
        KeyEvent::plain(code)
    }
}

impl vstd::std_specs::convert::FromSpecImpl<KeyCode> for KeyEvent {
    open spec fn obeys_from_spec() -> bool {
        true
    }

    open spec fn from_spec(code: KeyCode) -> Self {
        KeyEvent { code, modifiers: Modifiers { bits: 0 } }
    }
}

/// The exec comparison backing the order on key codes.
pub fn code_is_lt(a: KeyCode, b: KeyCode) -> (r: bool)
    ensures
        r == code_lt(a, b),
{
    let ra = code_rank_exec(a);
    let rb = code_rank_exec(b);
    if ra < rb {
        true
    } else if ra > rb {
        false
    } else {
        code_payload_exec(a) < code_payload_exec(b)
    }
}

fn code_rank_exec(c: KeyCode) -> (r: u8)
    ensures
        r as int == code_rank(c),
{
    match c {
        KeyCode::Char(_) => 0,
        KeyCode::Backspace => 1,
        KeyCode::Delete => 2,
        KeyCode::Enter => 3,
        KeyCode::Left => 4,
        KeyCode::Right => 5,
        KeyCode::Up => 6,
        KeyCode::Down => 7,
        KeyCode::Home => 8,
        KeyCode::End => 9,
        KeyCode::PageUp => 10,
        KeyCode::PageDown => 11,
        KeyCode::Tab => 12,
        KeyCode::Insert => 13,
        KeyCode::Escape => 14,
        KeyCode::F(_) => 15,
        KeyCode::Unknown => 16,
    }
}

fn code_payload_exec(c: KeyCode) -> (r: u32)
    ensures
        r as int == code_payload(c),
{
    match c {
        KeyCode::Char(ch) => ch as u32,
        KeyCode::F(n) => n as u32,
        _ => 0,
    }
}

impl PartialOrd for KeyEvent {
    /// Compares in the total order; two key events always compare.
    fn partial_cmp(&self, other: &Self) -> (r: Option<core::cmp::Ordering>) {
        if key_event_is_lt(self, other) {
            Some(core::cmp::Ordering::Less)
        } else if key_event_is_lt(other, self) {
            Some(core::cmp::Ordering::Greater)
        } else {
            Some(core::cmp::Ordering::Equal)
        }
    }
}

impl vstd::std_specs::cmp::PartialOrdSpecImpl for KeyEvent {
    open spec fn obeys_partial_cmp_spec() -> bool {
        true
    }

    open spec fn partial_cmp_spec(&self, other: &Self) -> Option<core::cmp::Ordering> {
        if key_event_lt(*self, *other) {
            Some(core::cmp::Ordering::Less)
        } else if key_event_lt(*other, *self) {
            Some(core::cmp::Ordering::Greater)
        } else {
            Some(core::cmp::Ordering::Equal)
        }
    }
}

/// The order on key events is a strict total order: any two distinct key
/// events compare one way exactly.
pub proof fn lemma_key_event_order_total(a: KeyEvent, b: KeyEvent)
    ensures
        key_event_lt(a, b) || key_event_lt(b, a) || a == b,
        key_event_lt(a, b) ==> !key_event_lt(b, a) && a != b,
{
    if !key_event_lt(a, b) && !key_event_lt(b, a) {
        assert(code_rank(a.code) == code_rank(b.code) && code_payload(a.code) == code_payload(
            b.code,
        ));
        assert(a.code == b.code);
        assert(a.modifiers == b.modifiers);
    }
}

/// The order on key events is transitive.
pub proof fn lemma_key_event_order_transitive(a: KeyEvent, b: KeyEvent, c: KeyEvent)
    requires
        key_event_lt(a, b),
        key_event_lt(b, c),
    ensures
        key_event_lt(a, c),
{
}

/// The exec comparison backing the order on key events.
pub fn key_event_is_lt(a: &KeyEvent, b: &KeyEvent) -> (r: bool)
    ensures
        r == key_event_lt(*a, *b),
{
    if code_is_lt(a.code, b.code) {
        true
    } else if code_is_lt(b.code, a.code) {
        false
    } else {
        assert(code_rank(a.code) == code_rank(b.code) && code_payload(a.code) == code_payload(
            b.code,
        ));
        assert(a.code == b.code);
        a.modifiers.bits < b.modifiers.bits
    }
}

} // verus!
