//! What the engine does with a key stroke, and what it tells the user.
//!
//! Drawing the screen and reading the keyboard is left to the caller; here
//! a key stroke becomes a change of the engine's state and, where the user
//! asked for it, a command to load a conversation, to send a message, or to
//! quit.

use crate::engine::{knows, App, InputMode};
use crate::errors::BmailError;
use crate::ids::{uuid_text, ConversationId};
use crate::text::texts;
use vstd::prelude::*;
use vstd::string::*;

verus! {

/// A key on the keyboard.
#[derive(Clone, Copy, Debug, PartialEq, Eq, Structural)]
pub enum Key {
    Char(char),
    Enter,
    Backspace,
    Esc,
    Tab,
    Up,
    Down,
    Other,
}

/// What the caller is to do after a key stroke.
#[derive(Debug, PartialEq)]
pub enum UiCommand {
    /// Nothing.
    Idle,
    /// Leave the program.
    Quit,
    /// Send `text` into the conversation on display, to `recipients`.
    Send { conversation_id: ConversationId, recipients: Vec<String>, text: String },
    /// Load the conversation with `recipients`.
    Load { recipients: Vec<String> },
}

/// `String::push`: the character is added at the end.
#[verifier::external_body]
fn string_push(s: &mut String, c: char)
    ensures
        final(s)@ == old(s)@.push(c),
{
    s.push(c)
}

/// `String::pop`: the last character is taken off, where there is one.
#[verifier::external_body]
fn string_pop(s: &mut String)
    ensures
        final(s)@ == (if old(s)@.len() > 0 {
            old(s)@.drop_last()
        } else {
            old(s)@
        }),
{
    s.pop();
}

/// The pieces of `s` between the occurrences of `sep`.
pub open spec fn split_on(s: Seq<char>, sep: char) -> Seq<Seq<char>>
    decreases s.len(),
{
    if s.len() == 0 {
        seq![Seq::<char>::empty()]
    } else {
        let before = split_on(s.drop_last(), sep);
        if s.last() == sep {
            before.push(Seq::<char>::empty())
        } else {
            before.update(before.len() - 1, before.last().push(s.last()))
        }
    }
}

/// The handles that the user has typed, separated by commas.
pub fn split_commas(text: &str) -> (pieces: Vec<String>)
    ensures
        texts(pieces@) == split_on(text@, ','),
{
    let n = text.unicode_len();
    let mut pieces: Vec<String> = Vec::new();
    let mut current = String::new();
    let mut i: usize = 0;
    assert(text@.subrange(0, 0) =~= Seq::<char>::empty());
    while i < n
        invariant
            i <= n,
            n == text@.len(),
            texts(pieces@).push(current@) == split_on(text@.subrange(0, i as int), ','),
        decreases n - i,
    {
        let c = text.get_char(i);
        proof {
            let next = text@.subrange(0, i + 1);
            assert(next.drop_last() =~= text@.subrange(0, i as int));
            assert(next.last() == c);
        }
        let ghost before = texts(pieces@).push(current@);
        if c == ',' {
            pieces.push(current);
            current = String::new();
            proof {
                assert(texts(pieces@) =~= before);
            }
        } else {
            let ghost prev = current@;
            string_push(&mut current, c);
            proof {
                assert(texts(pieces@).push(current@) =~= before.update(
                    before.len() - 1,
                    before.last().push(c),
                ));
            }
        }
        i += 1;
    }
    assert(text@.subrange(0, i as int) =~= text@);
    let ghost before = texts(pieces@).push(current@);
    pieces.push(current);
    assert(texts(pieces@) =~= before);
    pieces
}

/// The selection after a step up in a list of `len` messages: the one
/// before, from the first on to the last.
pub open spec fn stepped_up(selected: Option<usize>, len: nat) -> Option<usize> {
    if len == 0 {
        None
    } else {
        match selected {
            Some(i) => if i == 0 {
                Some((len - 1) as usize)
            } else {
                Some((i - 1) as usize)
            },
            None => Some(0),
        }
    }
}

/// The selection after a step down in a list of `len` messages: the next
/// one, from the last on to the first.
pub open spec fn stepped_down(selected: Option<usize>, len: nat) -> Option<usize> {
    if len == 0 {
        None
    } else {
        match selected {
            Some(i) => if i >= len - 1 {
                Some(0)
            } else {
                Some((i + 1) as usize)
            },
            None => Some(0),
        }
    }
}

/// What a key stroke does in normal mode.
pub open spec fn normal_key(pre: App, post: App, key: Key, command: UiCommand) -> bool {
    match key {
        Key::Char('e') => post == (App { input_mode: InputMode::Editing, ..pre }) && command
            == UiCommand::Idle,
        Key::Char('m') => post == (App { input_mode: InputMode::ScrollingMessages, ..pre })
            && command == UiCommand::Idle,
        Key::Tab => post == (App { input_mode: InputMode::EditingRecipient, ..pre }) && command
            == UiCommand::Idle,
        Key::Char('q') => post == pre && command == UiCommand::Quit,
        _ => post == pre && command == UiCommand::Idle,
    }
}

/// `post` is `pre` but for the input box, the recipient box and the status
/// line, which hold the texts given.
pub open spec fn with_texts(
    pre: App,
    post: App,
    input: Seq<char>,
    recipient: Seq<char>,
    status: Seq<char>,
) -> bool {
    &&& post.input@ == input
    &&& post.recipient@ == recipient
    &&& post.status@ == status
    &&& post.input_mode == pre.input_mode
    &&& post.identity == pre.identity
    &&& post.current_conversation_id == pre.current_conversation_id
    &&& post.conversations == pre.conversations
    &&& post.conversation_state == pre.conversation_state
    &&& post.recipients_conversation_map == pre.recipients_conversation_map
    &&& post.conf == pre.conf
    &&& post.user_did == pre.user_did
}

/// A text without its last character.
pub open spec fn without_last(s: Seq<char>) -> Seq<char> {
    if s.len() > 0 {
        s.drop_last()
    } else {
        s
    }
}

/// What a key stroke does while a message is typed.
pub open spec fn editing_key(pre: App, post: App, key: Key, command: UiCommand) -> bool {
    match key {
        Key::Enter => match pre.current_conversation_id {
            None => with_texts(pre, post, pre.input@, pre.recipient@, "No conversation is active"@)
                && command == UiCommand::Idle,
            Some(id) => {
                &&& post == pre
                &&& command matches UiCommand::Send { conversation_id, recipients, text }
                &&& conversation_id == id
                &&& texts(recipients@) == split_on(pre.recipient@, ',')
                &&& text@ == pre.input@
            },
        },
        Key::Char(c) => with_texts(pre, post, pre.input@.push(c), pre.recipient@, pre.status@)
            && command == UiCommand::Idle,
        Key::Backspace => with_texts(
            pre,
            post,
            without_last(pre.input@),
            pre.recipient@,
            pre.status@,
        ) && command == UiCommand::Idle,
        Key::Esc => post == (App { input_mode: InputMode::Normal, ..pre }) && command
            == UiCommand::Idle,
        Key::Tab => post == (App { input_mode: InputMode::EditingRecipient, ..pre }) && command
            == UiCommand::Idle,
        _ => post == pre && command == UiCommand::Idle,
    }
}

/// What a key stroke does while the recipients are typed.
pub open spec fn recipient_key(pre: App, post: App, key: Key, command: UiCommand) -> bool {
    match key {
        Key::Enter => {
            &&& post == pre
            &&& command matches UiCommand::Load { recipients }
            &&& texts(recipients@) == split_on(pre.recipient@, ',')
        },
        Key::Char(c) => with_texts(pre, post, pre.input@, pre.recipient@.push(c), pre.status@)
            && command == UiCommand::Idle,
        Key::Backspace => with_texts(
            pre,
            post,
            pre.input@,
            without_last(pre.recipient@),
            pre.status@,
        ) && command == UiCommand::Idle,
        Key::Esc => post == (App { input_mode: InputMode::Normal, ..pre }) && command
            == UiCommand::Idle,
        _ => post == pre && command == UiCommand::Idle,
    }
}

/// The number of messages of the conversation on display, where there is
/// one and it is known.
pub open spec fn shown_len(app: App) -> Option<nat> {
    match app.current_conversation_id {
        None => None,
        Some(id) => if knows(app.conversations@, id) {
            let i = choose|i: int|
                0 <= i < app.conversations@.len() && (
                #[trigger] app.conversations@[i]).conversation_id == id;
            Some(app.conversations@[i].messages.keys().len())
        } else {
            None
        },
    }
}

/// What a key stroke does while the messages are scrolled.
pub open spec fn scrolling_key(pre: App, post: App, key: Key, command: UiCommand) -> bool {
    &&& command == UiCommand::Idle
    &&& match key {
        Key::Esc => post == (App { input_mode: InputMode::Normal, ..pre }),
        Key::Up => match shown_len(pre) {
            Some(len) => post == (App {
                conversation_state: stepped_up(pre.conversation_state, len),
                ..pre
            }),
            None => post == pre,
        },
        Key::Down => match shown_len(pre) {
            Some(len) => post == (App {
                conversation_state: stepped_down(pre.conversation_state, len),
                ..pre
            }),
            None => post == pre,
        },
        _ => post == pre,
    }
}

/// What a key stroke does. Outside normal mode only a key that was pressed
/// counts, not one that was released or is repeating.
pub open spec fn key_handled(
    pre: App,
    post: App,
    key: Key,
    pressed: bool,
    command: UiCommand,
) -> bool {
    match pre.input_mode {
        InputMode::Normal => normal_key(pre, post, key, command),
        _ => if !pressed {
            post == pre && command == UiCommand::Idle
        } else {
            match pre.input_mode {
                InputMode::Editing => editing_key(pre, post, key, command),
                InputMode::EditingRecipient => recipient_key(pre, post, key, command),
                _ => scrolling_key(pre, post, key, command),
            }
        },
    }
}

impl App {
    fn shown_messages(&self) -> (len: Option<usize>)
        requires
            self.wf(),
        ensures
            match (len, shown_len(*self)) {
                (Some(n), Some(m)) => n == m,
                (None, None) => true,
                _ => false,
            },
    {
        match self.current_conversation_id {
            None => None,
            Some(id) => match self.find_conversation(id) {
                Some(i) => {
                    proof {
                        let j = choose|j: int|
                            0 <= j < self.conversations@.len() && (
                            #[trigger] self.conversations@[j]).conversation_id == id;
                        if j < i {
                            assert(self.conversations@[j].conversation_id
                                != self.conversations@[i as int].conversation_id);
                        } else if i < j {
                            assert(self.conversations@[i as int].conversation_id
                                != self.conversations@[j].conversation_id);
                        }
                    }
                    Some(self.conversations[i].messages.len())
                },
                None => None,
            },
        }
    }

    /// Takes a key stroke.
    pub fn handle_key(&mut self, key: Key, pressed: bool) -> (command: UiCommand)
        requires
            old(self).wf(),
        ensures
            final(self).wf(),
            key_handled(*old(self), *final(self), key, pressed, command),
    {
        match self.input_mode {
            InputMode::Normal => {
                match key {
                    Key::Char(c) => {
                        if c == 'e' {
                            self.input_mode = InputMode::Editing;
                        } else if c == 'm' {
                            self.input_mode = InputMode::ScrollingMessages;
                        } else if c == 'q' {
                            return UiCommand::Quit;
                        }
                    },
                    Key::Tab => {
                        self.input_mode = InputMode::EditingRecipient;
                    },
                    _ => {},
                }
                UiCommand::Idle
            },
            InputMode::Editing => {
                if !pressed {
                    return UiCommand::Idle;
                }
                match key {
                    Key::Enter => match self.current_conversation_id {
                        None => {
                            self.status = "No conversation is active".to_owned();
                            UiCommand::Idle
                        },
                        Some(id) => UiCommand::Send {
                            conversation_id: id,
                            recipients: split_commas(self.recipient.as_str()),
                            text: self.input.clone(),
                        },
                    },
                    Key::Char(c) => {
                        string_push(&mut self.input, c);
                        UiCommand::Idle
                    },
                    Key::Backspace => {
                        string_pop(&mut self.input);
                        UiCommand::Idle
                    },
                    Key::Esc => {
                        self.input_mode = InputMode::Normal;
                        UiCommand::Idle
                    },
                    Key::Tab => {
                        self.input_mode = InputMode::EditingRecipient;
                        UiCommand::Idle
                    },
                    _ => UiCommand::Idle,
                }
            },
            InputMode::EditingRecipient => {
                if !pressed {
                    return UiCommand::Idle;
                }
                match key {
                    Key::Enter => UiCommand::Load {
                        recipients: split_commas(self.recipient.as_str()),
                    },
                    Key::Char(c) => {
                        string_push(&mut self.recipient, c);
                        UiCommand::Idle
                    },
                    Key::Backspace => {
                        string_pop(&mut self.recipient);
                        UiCommand::Idle
                    },
                    Key::Esc => {
                        self.input_mode = InputMode::Normal;
                        UiCommand::Idle
                    },
                    _ => UiCommand::Idle,
                }
            },
            InputMode::ScrollingMessages => {
                if !pressed {
                    return UiCommand::Idle;
                }
                match key {
                    Key::Esc => {
                        self.input_mode = InputMode::Normal;
                    },
                    Key::Up => match self.shown_messages() {
                        Some(len) => {
                            self.conversation_state = if len == 0 {
                                None
                            } else {
                                match self.conversation_state {
                                    Some(i) => if i == 0 {
                                        Some(len - 1)
                                    } else {
                                        Some(i - 1)
                                    },
                                    None => Some(0),
                                }
                            };
                        },
                        None => {},
                    },
                    Key::Down => match self.shown_messages() {
                        Some(len) => {
                            self.conversation_state = if len == 0 {
                                None
                            } else {
                                match self.conversation_state {
                                    Some(i) => if i >= len - 1 {
                                        Some(0)
                                    } else {
                                        Some(i + 1)
                                    },
                                    None => Some(0),
                                }
                            };
                        },
                        None => {},
                    },
                    _ => {},
                }
                UiCommand::Idle
            },
        }
    }

    /// Tells the user how a send went: the input box is cleared where it
    /// went well, the status line names the failure where it did not.
    pub fn report_send(&mut self, outcome: &Result<(), BmailError>)
        ensures
            match *outcome {
                Ok(()) => with_texts(
                    *old(self),
                    *final(self),
                    Seq::empty(),
                    old(self).recipient@,
                    old(self).status@,
                ),
                Err(BmailError::MissingRecipient(did)) => with_texts(
                    *old(self),
                    *final(self),
                    old(self).input@,
                    old(self).recipient@,
                    "Recipient "@ + did@ + " is not using Bmail"@,
                ),
                Err(e) => with_texts(
                    *old(self),
                    *final(self),
                    old(self).input@,
                    old(self).recipient@,
                    "Unexpected Error: "@ + e.spec_message(),
                ),
            },
    {
        match outcome {
            Ok(()) => {
                self.input = String::new();
            },
            Err(BmailError::MissingRecipient(did)) => {
                self.status = "Recipient ".to_owned().concat(did.as_str()).concat(
                    " is not using Bmail",
                );
            },
            Err(e) => {
                self.status = "Unexpected Error: ".to_owned().concat(e.message().as_str());
            },
        }
    }

    /// Tells the user how a load went.
    pub fn report_load(&mut self, outcome: &Result<ConversationId, BmailError>)
        ensures
            match *outcome {
                Ok(id) => with_texts(
                    *old(self),
                    *final(self),
                    old(self).input@,
                    old(self).recipient@,
                    "Loaded Conversation: "@ + uuid_text(id.0),
                ),
                Err(e) => with_texts(
                    *old(self),
                    *final(self),
                    old(self).input@,
                    old(self).recipient@,
                    "Failed to load conversation: "@ + e.spec_message(),
                ),
            },
    {
        match outcome {
            Ok(id) => {
                self.status = "Loaded Conversation: ".to_owned().concat(id.to_text().as_str());
            },
            Err(e) => {
                self.status = "Failed to load conversation: ".to_owned().concat(
                    e.message().as_str(),
                );
            },
        }
    }
}

} // verus!
