//! The message-list view model: the ordered messages plus a cursor, moved
//! by selectors and kept valid across inserts and deletes. Rendering is
//! not here; this is the state the renderer draws.

use vstd::prelude::*;

use crate::message::{key_same, lemma_key_irrefl, Message, MessageKey, MessageList};

verus! {

/// How to pick a message: by position from the start, by position from
/// the end, or relative to the current selection.
#[derive(Clone, Copy, Debug)]
pub enum MessageSelector {
    FromStart(usize),
    FromEnd(usize),
    Relative(isize),
}

/// Where the cursor lands when `sel` is applied to a list of `len`
/// messages with the cursor at `cur`.
///
/// A from-start or from-end position beyond the list deselects. A
/// relative move steps from the cursor (or from just outside the list
/// when nothing is selected) and leaves the cursor alone when the move
/// would run off the list.
pub open spec fn spec_select(len: int, cur: Option<int>, sel: MessageSelector) -> Option<int> {
    match sel {
        MessageSelector::FromStart(i) => if i < len {
            Some(i as int)
        } else {
            None
        },
        MessageSelector::FromEnd(i) => if i < len {
            Some(len - 1 - (i as int))
        } else {
            None
        },
        MessageSelector::Relative(o) => if o == 0 {
            cur
        } else if o > 0 {
            let base = match cur {
                None => -1,
                Some(c) => c,
            };
            if base + o < len {
                Some(base + o)
            } else {
                cur
            }
        } else {
            let base = match cur {
                None => len,
                Some(c) => c,
            };
            if base + o >= 0 {
                Some(base + o)
            } else {
                cur
            }
        },
    }
}

/// Where the cursor lands after the message at `removed` is deleted from
/// a list that is `new_len` long afterwards: a cursor on the deleted
/// message moves to its successor, or to the last message, or away; a
/// cursor elsewhere stays on its message.
pub open spec fn spec_cursor_after_delete(cur: Option<int>, removed: int, new_len: int) -> Option<
    int,
> {
    match cur {
        None => None,
        Some(c) => if c < removed {
            Some(c)
        } else if c > removed {
            Some(c - 1)
        } else if removed < new_len {
            Some(removed)
        } else if new_len > 0 {
            Some(new_len - 1)
        } else {
            None
        },
    }
}

/// The message landed at a fresh place in the key order: the list gained
/// it there, and the cursor followed the rules of `MessageListView::insert`.
pub open spec fn inserted_at(
    old_msgs: Seq<Message>,
    old_cur: Option<int>,
    new_msgs: Seq<Message>,
    new_cur: Option<int>,
    message: Message,
) -> bool {
    exists|pos: int|
        0 <= pos <= old_msgs.len() && new_msgs == #[trigger] old_msgs.insert(pos, message)
            && new_cur == (match old_cur {
            None => Some(pos),
            Some(c) => Some(
                if pos <= c {
                    c + 1
                } else {
                    c
                },
            ),
        })
}

/// The message displaced one with the same key: the list was updated in
/// place, and the cursor stayed (or, with nothing selected, moved to the
/// new message).
pub open spec fn replaced_at(
    old_msgs: Seq<Message>,
    old_cur: Option<int>,
    new_msgs: Seq<Message>,
    new_cur: Option<int>,
    message: Message,
) -> bool {
    exists|pos: int|
        0 <= pos < old_msgs.len() && key_same(old_msgs[pos].key, message.key) && new_msgs
            == #[trigger] old_msgs.update(pos, message) && new_cur == (match old_cur {
            None => Some(pos),
            Some(c) => Some(c),
        })
}

/// The ordered messages with a cursor marking the selection.
#[derive(Debug)]
pub struct MessageListView {
    messages: MessageList,
    cursor: Option<usize>,
}

impl MessageListView {
    /// The messages, in key order.
    pub closed spec fn msgs(&self) -> Seq<Message> {
        self.messages@
    }

    /// The index of the selected message, if any.
    pub closed spec fn cursor_at(&self) -> Option<int> {
        match self.cursor {
            Some(c) => Some(c as int),
            None => None,
        }
    }

    /// The messages are in strict key order and the cursor, when set,
    /// points at one of them.
    pub closed spec fn wf(&self) -> bool {
        &&& self.messages.wf()
        &&& match self.cursor_at() {
            Some(c) => 0 <= c < self.msgs().len(),
            None => true,
        }
    }

    /// Moves the cursor as the selector says; the messages stay as they
    /// are.
    pub fn select(&mut self, selector: MessageSelector)
        requires
            old(self).wf(),
        ensures
            final(self).wf(),
            final(self).msgs() == old(self).msgs(),
            final(self).cursor_at() == spec_select(
                old(self).msgs().len() as int,
                old(self).cursor_at(),
                selector,
            ),
    {
        let len = self.messages.len();
        match selector {
            MessageSelector::FromStart(i) => {
                self.cursor = if i < len {
                    Some(i)
                } else {
                    None
                };
            },
            MessageSelector::FromEnd(i) => {
                self.cursor = if i < len {
                    Some(len - 1 - i)
                } else {
                    None
                };
            },
            MessageSelector::Relative(o) => {
                if o > 0 {
                    let step = o as usize;
                    match self.cursor {
                        None => {
                            if step - 1 < len {
                                self.cursor = Some(step - 1);
                            }
                        },
                        Some(c) => {
                            if step < len - c {
                                self.cursor = Some(c + step);
                            }
                        },
                    }
                } else if o < 0 {
                    let mag: usize = if o == isize::MIN {
                        (isize::MAX as usize) + 1
                    } else {
                        (-o) as usize
                    };
                    match self.cursor {
                        None => {
                            if mag <= len {
                                self.cursor = Some(len - mag);
                            }
                        },
                        Some(c) => {
                            if mag <= c {
                                self.cursor = Some(c - mag);
                            }
                        },
                    }
                }
            },
        }
    }

    /// Inserts a message at its place in the key order; a message with
    /// the same key is displaced. When nothing was selected the new
    /// message becomes the selection; otherwise the selection stays on
    /// the message it was on.
    pub fn insert(&mut self, message: Message)
        requires
            old(self).wf(),
        ensures
            final(self).wf(),
            (forall|i: int|
                0 <= i < old(self).msgs().len() ==> !key_same(
                    #[trigger] old(self).msgs()[i].key,
                    message.key,
                )) ==> inserted_at(
                old(self).msgs(),
                old(self).cursor_at(),
                final(self).msgs(),
                final(self).cursor_at(),
                message,
            ),
            (exists|i: int|
                0 <= i < old(self).msgs().len() && key_same(
                    #[trigger] old(self).msgs()[i].key,
                    message.key,
                )) ==> replaced_at(
                old(self).msgs(),
                old(self).cursor_at(),
                final(self).msgs(),
                final(self).cursor_at(),
                message,
            ),
    {
        let (pos, displaced) = self.messages.insert_with_index(message);
        let replaced = matches!(displaced, Some(_));
        match self.cursor {
            None => {
                self.cursor = Some(pos);
            },
            Some(c) => {
                proof {
                    assert(old(self).cursor_at() == Some(c as int));
                    assert(c < old(self).msgs().len());
                }
                if !replaced && pos <= c {
                    self.cursor = Some(c + 1);
                }
            },
        }
        proof {
            let p = pos as int;
            if replaced {
                assert(self.msgs() == old(self).msgs().update(p, message));
                assert(replaced_at(
                    old(self).msgs(),
                    old(self).cursor_at(),
                    self.msgs(),
                    self.cursor_at(),
                    message,
                ));
            } else {
                assert(self.msgs() == old(self).msgs().insert(p, message));
                assert(inserted_at(
                    old(self).msgs(),
                    old(self).cursor_at(),
                    self.msgs(),
                    self.cursor_at(),
                    message,
                ));
            }
        }
    }

    /// Deletes the message with the given key, if present, and keeps the
    /// cursor sensible: a cursor on the deleted message moves to the
    /// next message (or the new last one, or away), a cursor elsewhere
    /// stays on its message.
    pub fn delete(&mut self, message: &MessageKey)
        requires
            old(self).wf(),
        ensures
            final(self).wf(),
            (forall|i: int|
                0 <= i < old(self).msgs().len() ==> !key_same(
                    #[trigger] old(self).msgs()[i].key,
                    *message,
                )) ==> *final(self) == *old(self),
            forall|i: int|
                0 <= i < old(self).msgs().len() && key_same(
                    #[trigger] old(self).msgs()[i].key,
                    *message,
                ) ==> {
                    &&& final(self).msgs() == old(self).msgs().remove(i)
                    &&& final(self).cursor_at() == spec_cursor_after_delete(
                        old(self).cursor_at(),
                        i,
                        old(self).msgs().len() - 1,
                    )
                },
    {
        match self.messages.remove_key(message) {
            None => {},
            Some(removed) => {
                proof {
                    assert forall|i: int|
                        0 <= i < old(self).msgs().len() && key_same(
                            #[trigger] old(self).msgs()[i].key,
                            *message,
                        ) implies i == removed as int by {
                        if i != removed as int {
                            lemma_key_irrefl(old(self).msgs()[i].key, old(self).msgs()[removed as int].key);
                            lemma_key_irrefl(old(self).msgs()[removed as int].key, old(self).msgs()[i].key);
                        }
                    }
                }
                let new_len = self.messages.len();
                match self.cursor {
                    None => {},
                    Some(c) => {
                        if c < removed {
                        } else if c > removed {
                            self.cursor = Some(c - 1);
                        } else if removed < new_len {
                        } else if new_len > 0 {
                            self.cursor = Some(new_len - 1);
                        } else {
                            self.cursor = None;
                        }
                    },
                }
            },
        }
    }

    /// The messages, in key order, for display.
    pub fn messages(&self) -> (r: &Vec<Message>)
        ensures
            r@ == self.msgs(),
    {
        self.messages.iter()
    }

    /// The index of the selected message, if any, for display.
    pub fn selected_index(&self) -> (r: Option<usize>)
        ensures
            match r {
                Some(c) => self.cursor_at() == Some(c as int),
                None => self.cursor_at() is None,
            },
    {
        self.cursor
    }

    /// The selected message, if any.
    pub fn selected(&self) -> (r: Option<&Message>)
        requires
            self.wf(),
        ensures
            match r {
                Some(m) => self.cursor_at() matches Some(c) && *m == self.msgs()[c],
                None => self.cursor_at() is None,
            },
    {
        match self.cursor {
            Some(c) => Some(&self.messages.iter()[c]),
            None => None,
        }
    }

    /// Deletes the selected message, if any.
    pub fn delete_selected(&mut self)
        requires
            old(self).wf(),
        ensures
            final(self).wf(),
            old(self).cursor_at() is None ==> *final(self) == *old(self),
            forall|c: int|
                old(self).cursor_at() == Some(c) ==> {
                    &&& final(self).msgs() == old(self).msgs().remove(c)
                    &&& final(self).cursor_at() == spec_cursor_after_delete(
                        Some(c),
                        c,
                        old(self).msgs().len() - 1,
                    )
                },
    {
        let key = match self.cursor {
            Some(c) => Some(self.messages.iter()[c].key()),
            None => None,
        };
        match key {
            Some(k) => {
                proof {
                    let c = old(self).cursor_at()->Some_0;
                    assert(key_same(old(self).msgs()[c].key, k));
                }
                self.delete(&k);
            },
            None => {},
        }
    }
}

impl Default for MessageListView {
    /// An empty view with nothing selected.
    fn default() -> (r: Self)
        ensures
            r.wf(),
            r.msgs() == Seq::<Message>::empty(),
            r.cursor_at() is None,
    {
        MessageListView { messages: MessageList::new(), cursor: None }
    }
}

} // verus!
