//! UI modes, the actions keys can resolve to, the keymap of each mode,
//! and the application state that dispatches resolved actions.

use vstd::prelude::*;

use crate::keymap::{Keymap, DEFAULT_KEY_TIMEOUT_MS};
use crate::keys::{KeyCode, KeyEvent, Modifiers, MOD_SHIFT};
use crate::message::Message;
use crate::message_list::{
    inserted_at, replaced_at, spec_cursor_after_delete, spec_select, MessageListView,
    MessageSelector,
};

verus! {

/// Which keymap is live.
#[derive(Clone, Copy, Debug, PartialEq, Eq, Structural)]
pub enum Mode {
    /// Main view, with the message list selected.
    MessageList,
    /// Normal mode for editing messages.
    Normal,
    /// Insert mode for editing messages.
    Insert,
    /// Single-line editing mode for entering commands.
    Command,
}

impl Default for Mode {
    /// The mode the application starts in.
    fn default() -> (r: Self)
        ensures
            r == Mode::MessageList,
    {
        Mode::MessageList
    }
}

/// What a resolved key sequence asks the application to do.
#[derive(Clone, Copy, Debug)]
pub enum Action {
    Quit,
    SelectMessage(MessageSelector),
    DeleteSelectedMessage,
}

/// One keymap per mode.
#[derive(Debug)]
pub struct Keymaps {
    pub message_list: Keymap<Action>,
    pub normal: Keymap<Action>,
    pub insert: Keymap<Action>,
    pub command: Keymap<Action>,
}

/// The key event for a bare character.
pub open spec fn plain_key(c: char) -> KeyEvent {
    KeyEvent { code: KeyCode::Char(c), modifiers: Modifiers { bits: 0 } }
}

/// The key event for a shifted character.
pub open spec fn shifted_key(c: char) -> KeyEvent {
    KeyEvent { code: KeyCode::Char(c), modifiers: Modifiers { bits: MOD_SHIFT } }
}

/// The built-in bindings of the message-list mode.
pub open spec fn default_message_list_bindings() -> Map<Seq<KeyEvent>, Action> {
    Map::empty().insert(seq![plain_key('q')], Action::Quit).insert(
        seq![plain_key('j')],
        Action::SelectMessage(MessageSelector::Relative(1isize)),
    ).insert(
        seq![plain_key('k')],
        Action::SelectMessage(MessageSelector::Relative(-1isize)),
    ).insert(
        seq![plain_key('g'), plain_key('g')],
        Action::SelectMessage(MessageSelector::FromStart(0usize)),
    ).insert(
        seq![shifted_key('G')],
        Action::SelectMessage(MessageSelector::FromEnd(0usize)),
    ).insert(seq![plain_key('d'), plain_key('d')], Action::DeleteSelectedMessage)
}

/// A one-key chord for a bare character.
fn chord1(c: char) -> (r: Vec<KeyEvent>)
    ensures
        r@ == seq![plain_key(c)],
{
    let mut r: Vec<KeyEvent> = Vec::new();
    r.push(KeyEvent::plain(KeyCode::Char(c)));
    proof {
        assert(r@ =~= seq![plain_key(c)]);
    }
    r
}

/// A two-key chord of the same bare character twice.
fn chord2(c: char) -> (r: Vec<KeyEvent>)
    ensures
        r@ == seq![plain_key(c), plain_key(c)],
{
    let mut r: Vec<KeyEvent> = Vec::new();
    r.push(KeyEvent::plain(KeyCode::Char(c)));
    r.push(KeyEvent::plain(KeyCode::Char(c)));
    proof {
        assert(r@ =~= seq![plain_key(c), plain_key(c)]);
    }
    r
}

impl Keymaps {
    /// Every mode's keymap is well formed.
    pub open spec fn wf(&self) -> bool {
        &&& self.message_list.wf()
        &&& self.normal.wf()
        &&& self.insert.wf()
        &&& self.command.wf()
    }

    /// The keymap of the given mode.
    pub fn active_keymap(&self, mode: Mode) -> (r: &Keymap<Action>)
        ensures
            *r == (match mode {
                Mode::MessageList => self.message_list,
                Mode::Normal => self.normal,
                Mode::Insert => self.insert,
                Mode::Command => self.command,
            }),
    {
        match mode {
            Mode::MessageList => &self.message_list,
            Mode::Normal => &self.normal,
            Mode::Insert => &self.insert,
            Mode::Command => &self.command,
        }
    }
}

impl Default for Keymaps {
    /// The built-in keymaps: the message-list bindings, and empty maps
    /// for the other modes, all with the default timeout.
    fn default() -> (r: Self)
        ensures
            r.wf(),
            r.message_list@ == default_message_list_bindings(),
            r.normal@ == Map::<Seq<KeyEvent>, Action>::empty(),
            r.insert@ == Map::<Seq<KeyEvent>, Action>::empty(),
            r.command@ == Map::<Seq<KeyEvent>, Action>::empty(),
            r.message_list.spec_timeout_ms() == DEFAULT_KEY_TIMEOUT_MS,
            r.normal.spec_timeout_ms() == DEFAULT_KEY_TIMEOUT_MS,
            r.insert.spec_timeout_ms() == DEFAULT_KEY_TIMEOUT_MS,
            r.command.spec_timeout_ms() == DEFAULT_KEY_TIMEOUT_MS,
    {
        let mut message_list: Keymap<Action> = Keymap::default();
        message_list.insert(chord1('q'), Action::Quit);
        message_list.insert(chord1('j'), Action::SelectMessage(MessageSelector::Relative(1)));
        message_list.insert(chord1('k'), Action::SelectMessage(MessageSelector::Relative(-1)));
        message_list.insert(chord2('g'), Action::SelectMessage(MessageSelector::FromStart(0)));
        let mut shift_g: Vec<KeyEvent> = Vec::new();
        shift_g.push(KeyEvent::new(KeyCode::Char('G'), Modifiers::empty().with_shift()));
        proof {
            assert(0u8 | 8u8 == 8u8) by (bit_vector);
            assert(shift_g@[0].modifiers == (Modifiers { bits: MOD_SHIFT }));
            assert(shift_g@ =~= seq![shifted_key('G')]);
        }
        message_list.insert(shift_g, Action::SelectMessage(MessageSelector::FromEnd(0)));
        message_list.insert(chord2('d'), Action::DeleteSelectedMessage);
        Keymaps {
            message_list,
            normal: Keymap::default(),
            insert: Keymap::default(),
            command: Keymap::default(),
        }
    }
}

/// The application state: whether the loop should stop, the message-list
/// view, the keymaps, and the live mode.
#[derive(Debug)]
pub struct State {
    pub stopped: bool,
    pub messages: MessageListView,
    pub keymaps: Keymaps,
    pub mode: Mode,
}

impl State {
    /// The state's parts are well formed.
    pub open spec fn wf(&self) -> bool {
        &&& self.messages.wf()
        &&& self.keymaps.wf()
    }

    /// The keymap of the live mode.
    pub fn active_keymap(&self) -> (r: &Keymap<Action>)
        ensures
            *r == (match self.mode {
                Mode::MessageList => self.keymaps.message_list,
                Mode::Normal => self.keymaps.normal,
                Mode::Insert => self.keymaps.insert,
                Mode::Command => self.keymaps.command,
            }),
    {
        self.keymaps.active_keymap(self.mode)
    }

    /// Hands passthrough keys to the active input field. The editing
    /// modes have no input field yet, so there this must not be called;
    /// in the other modes the keys fall on the floor.
    #[allow(unused_variables)]
    pub fn insert_keys(&mut self, keys: &Vec<KeyEvent>)
        requires
            old(self).mode == Mode::MessageList || old(self).mode == Mode::Normal,
        ensures
            *final(self) == *old(self),
    {
    }

    /// Applies one resolver outcome: forwards the passthrough keys, then
    /// performs the action, if one fired.
    pub fn handle_key_event(&mut self, keys: &Vec<KeyEvent>, action: Option<Action>)
        requires
            old(self).wf(),
            old(self).mode == Mode::MessageList || old(self).mode == Mode::Normal,
        ensures
            final(self).wf(),
            final(self).keymaps == old(self).keymaps,
            final(self).mode == old(self).mode,
            match action {
                None => *final(self) == *old(self),
                Some(Action::Quit) => final(self).stopped && final(self).messages == old(
                    self,
                ).messages,
                Some(Action::SelectMessage(sel)) => {
                    &&& final(self).stopped == old(self).stopped
                    &&& final(self).messages.msgs() == old(self).messages.msgs()
                    &&& final(self).messages.cursor_at() == spec_select(
                        old(self).messages.msgs().len() as int,
                        old(self).messages.cursor_at(),
                        sel,
                    )
                },
                Some(Action::DeleteSelectedMessage) => {
                    &&& final(self).stopped == old(self).stopped
                    &&& old(self).messages.cursor_at() is None ==> final(self).messages == old(
                        self,
                    ).messages
                    &&& forall|c: int|
                        old(self).messages.cursor_at() == Some(c) ==> {
                            &&& final(self).messages.msgs() == old(self).messages.msgs().remove(c)
                            &&& final(self).messages.cursor_at() == spec_cursor_after_delete(
                                Some(c),
                                c,
                                old(self).messages.msgs().len() - 1,
                            )
                        }
                },
            },
    {
        self.insert_keys(keys);
        match action {
            Some(Action::Quit) => {
                self.stopped = true;
            },
            Some(Action::SelectMessage(selector)) => {
                self.messages.select(selector);
            },
            Some(Action::DeleteSelectedMessage) => {
                let ghost pre = self.messages;
                self.messages.delete_selected();
                proof {
                    if pre.cursor_at() is Some {
                        let c = pre.cursor_at()->Some_0;
                        assert(self.messages.msgs() == pre.msgs().remove(c));
                        assert(self.messages.cursor_at() == spec_cursor_after_delete(
                            Some(c),
                            c,
                            pre.msgs().len() - 1,
                        ));
                    }
                }
            },
            None => {},
        }
    }

    /// Takes one incoming message into the list.
    pub fn handle_message(&mut self, message: Message)
        requires
            old(self).wf(),
        ensures
            final(self).wf(),
            final(self).stopped == old(self).stopped,
            final(self).keymaps == old(self).keymaps,
            final(self).mode == old(self).mode,
            (forall|i: int|
                0 <= i < old(self).messages.msgs().len() ==> !crate::message::key_same(
                    #[trigger] old(self).messages.msgs()[i].key,
                    message.key,
                )) ==> inserted_at(
                old(self).messages.msgs(),
                old(self).messages.cursor_at(),
                final(self).messages.msgs(),
                final(self).messages.cursor_at(),
                message,
            ),
            (exists|i: int|
                0 <= i < old(self).messages.msgs().len() && crate::message::key_same(
                    #[trigger] old(self).messages.msgs()[i].key,
                    message.key,
                )) ==> replaced_at(
                old(self).messages.msgs(),
                old(self).messages.cursor_at(),
                final(self).messages.msgs(),
                final(self).messages.cursor_at(),
                message,
            ),
    {
        self.messages.insert(message);
    }
}

impl Default for State {
    /// The starting state: not stopped, no messages, the built-in
    /// keymaps, message-list mode.
    fn default() -> (r: Self)
        ensures
            r.wf(),
            !r.stopped,
            r.messages.msgs() == Seq::<Message>::empty(),
            r.messages.cursor_at() is None,
            r.keymaps.message_list@ == default_message_list_bindings(),
            r.mode == Mode::MessageList,
    {
        State {
            stopped: false,
            messages: MessageListView::default(),
            keymaps: Keymaps::default(),
            mode: Mode::default(),
        }
    }
}

} // verus!
