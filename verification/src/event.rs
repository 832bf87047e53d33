//! Keys pressed, messages that come in, and the passing of time.
use vstd::prelude::*;
use crate::action::{
    in_range, read_in, Action, ActionView, AfterHistory, AfterView, HISTORY_LIMIT, REFRESH_LIMIT,
};
use crate::app::{position, window_of, App, AppView};
use crate::clock::{is_clock, local_time, now, shown_at};
use crate::command::{command_of, parse_command};
use crate::dispatch::Step;
use crate::history::{caption, wrapped, Message, MessageView};
use crate::peer::{or_else_text, text_or, Peer, PeerView};
use crate::text::{decimal, decimal_of, digit_value, is_digit};

verus! {

// ── Keys ─────────────────────────────────────────────────────────────────────

/// A key.
#[derive(Clone, Copy, Debug, PartialEq, Eq, Structural)]
pub enum KeyCode {
    Char { ch: char },
    Left,
    Right,
    Enter,
    Tab,
    Backspace,
    Other,
}

/// The modifiers held down with a key, where it is at most one.
#[derive(Clone, Copy, Debug, PartialEq, Eq, Structural)]
pub enum Modifier {
    Plain,
    Shift,
    Control,
    Alt,
    Other,
}

/// A key going down, or doing something else.
#[derive(Clone, Copy, Debug, PartialEq, Eq, Structural)]
pub struct Key {
    pub code: KeyCode,
    pub modifier: Modifier,
    pub pressed: bool,
}

/// The window to the left of window `active` among `n`, with the status window
/// left of the first and right of the last.
pub open spec fn left_of(active: Option<usize>, n: nat) -> Option<usize> {
    match active {
        Some(i) => if i == 0 {
            None
        } else {
            Some((i - 1) as usize)
        },
        None => if n > 0 {
            Some((n - 1) as usize)
        } else {
            None
        },
    }
}

/// The window to the right of window `active` among `n`.
pub open spec fn right_of(active: Option<usize>, n: nat) -> Option<usize> {
    match active {
        Some(i) => if i + 1 < n {
            Some((i + 1) as usize)
        } else {
            None
        },
        None => if n > 0 {
            Some(0)
        } else {
            None
        },
    }
}

impl AppView {
    /// Window `to` put in front without a word.
    pub open spec fn cycled(self, to: Option<usize>) -> Step {
        match to {
            Some(i) => Step { app: self.selected(i as int), action: read_in(i, AfterView::Save) },
            None => Step { app: AppView { active: None, ..self }, action: ActionView::Save },
        }
    }

    /// The window of a digit put in front, if there is one.
    pub open spec fn jumped(self, digit: nat, ts: Seq<char>) -> Step {
        if digit == 1 {
            self.to_status(ts)
        } else if 2 <= digit < self.windows.len() + 2 {
            self.to_window(digit - 2, ts)
        } else {
            Step { app: self, action: ActionView::Done }
        }
    }

    /// The input line taken away, and the completion in progress forgotten.
    pub open spec fn taken(self) -> AppView {
        AppView { tab: None, input: Seq::empty(), ..self }
    }

    /// The input line with a character added.
    pub open spec fn typed(self, ch: char) -> AppView {
        AppView { tab: None, input: self.input.push(ch), ..self }
    }

    /// The input line without its last character.
    pub open spec fn erased(self) -> AppView {
        AppView {
            tab: None,
            input: if self.input.len() > 0 {
                self.input.drop_last()
            } else {
                self.input
            },
            ..self
        }
    }

    /// What a key does.
    pub open spec fn keyed(self, key: Key, ts: Seq<char>) -> Step {
        if !key.pressed {
            Step { app: self, action: ActionView::Done }
        } else {
            match key.code {
                KeyCode::Char { ch } => if ch == 'c' && key.modifier == Modifier::Control {
                    Step { app: self, action: ActionView::Quit }
                } else if is_digit(ch) && key.modifier == Modifier::Alt {
                    self.jumped(digit_value(ch), ts)
                } else if key.modifier == Modifier::Plain || key.modifier == Modifier::Shift {
                    Step { app: self.typed(ch), action: ActionView::Done }
                } else {
                    Step { app: self, action: ActionView::Done }
                },
                KeyCode::Left => if key.modifier == Modifier::Alt {
                    self.cycled(left_of(self.active, self.windows.len()))
                } else {
                    Step { app: self, action: ActionView::Done }
                },
                KeyCode::Right => if key.modifier == Modifier::Alt {
                    self.cycled(right_of(self.active, self.windows.len()))
                } else {
                    Step { app: self, action: ActionView::Done }
                },
                KeyCode::Enter => self.taken().ran(command_of(self.input), ts),
                KeyCode::Tab => Step { app: self.tabbed(), action: ActionView::Done },
                KeyCode::Backspace => Step { app: self.erased(), action: ActionView::Done },
                KeyCode::Other => Step { app: self, action: ActionView::Done },
            }
        }
    }

    /// Whether a key can be taken: the Enter key only with a line that can be run.
    pub open spec fn takes(self, key: Key) -> bool {
        key.pressed && key.code == KeyCode::Enter ==> self.runnable(command_of(self.input))
    }
}

impl App {
    fn cycle(&mut self, to: Option<usize>) -> (r: Action)
        requires
            old(self).wf(),
            to matches Some(i) ==> i < old(self)@.windows.len(),
        ensures
            final(self).wf(),
            (Step { app: final(self)@, action: r@ }) == old(self)@.cycled(to),
            in_range(r@, final(self)@.windows.len()),
    {
        let ghost before = self@;
        match to {
            Some(i) => {
                self.select(i);
                Action::LoadHistory { win: i, limit: HISTORY_LIMIT, next: AfterHistory::Save }
            },
            None => {
                self.active = None;
                assert(self@ =~= (AppView { active: None, ..before }));
                Action::Save
            },
        }
    }

    fn jump(&mut self, digit: usize, ts: &str) -> (r: Action)
        requires
            old(self).wf(),
            digit < 10,
        ensures
            final(self).wf(),
            (Step { app: final(self)@, action: r@ }) == old(self)@.jumped(digit as nat, ts@),
            in_range(r@, final(self)@.windows.len()),
    {
        if digit == 1 {
            return self.go_to_status(ts);
        }
        if digit >= 2 && digit - 2 < self.windows.len() {
            return self.go_to_window(digit - 2, ts);
        }
        Action::Done
    }

    fn type_char(&mut self, ch: char)
        requires
            old(self).wf(),
        ensures
            final(self).wf(),
            final(self)@ == old(self)@.typed(ch),
    {
        let ghost before = self@;
        self.reset_tab();
        self.input.push(ch);
        assert(self@ =~= before.typed(ch));
    }

    fn erase_char(&mut self)
        requires
            old(self).wf(),
        ensures
            final(self).wf(),
            final(self)@ == old(self)@.erased(),
    {
        let ghost before = self@;
        self.reset_tab();
        let n = self.input.as_str().unicode_len();
        if n > 0 {
            let kept = self.input.as_str().substring_char(0, n - 1).to_owned();
            self.input = kept;
            assert(self.input@ =~= before.input.drop_last());
        }
        assert(self@ =~= before.erased());
    }

    /// Takes away the input line.
    fn take_input(&mut self) -> (line: String)
        requires
            old(self).wf(),
        ensures
            final(self).wf(),
            final(self)@ == old(self)@.taken(),
            line@ == old(self)@.input,
    {
        let ghost before = self@;
        self.reset_tab();
        let line = self.input.clone();
        self.input = String::new();
        assert(self@ =~= before.taken());
        line
    }

    /// Does what a key does, with lines stamped `ts`.
    pub fn on_key_at(&mut self, key: Key, ts: &str) -> (r: Action)
        requires
            old(self).wf(),
            old(self)@.takes(key),
        ensures
            final(self).wf(),
            (Step { app: final(self)@, action: r@ }) == old(self)@.keyed(key, ts@),
            in_range(r@, final(self)@.windows.len()),
    {
        if !key.pressed {
            return Action::Done;
        }
        match key.code {
            KeyCode::Char { ch } => {
                if ch == 'c' && key.modifier == Modifier::Control {
                    Action::Quit
                } else if '0' <= ch && ch <= '9' && key.modifier == Modifier::Alt {
                    let digit: usize = (ch as u32 - 48) as usize;
                    self.jump(digit, ts)
                } else if key.modifier == Modifier::Plain || key.modifier == Modifier::Shift {
                    self.type_char(ch);
                    Action::Done
                } else {
                    Action::Done
                }
            },
            KeyCode::Left => {
                if key.modifier == Modifier::Alt {
                    let n = self.windows.len();
                    let to = match self.active {
                        Some(i) => if i == 0 {
                            None
                        } else {
                            Some(i - 1)
                        },
                        None => if n > 0 {
                            Some(n - 1)
                        } else {
                            None
                        },
                    };
                    self.cycle(to)
                } else {
                    Action::Done
                }
            },
            KeyCode::Right => {
                if key.modifier == Modifier::Alt {
                    let n = self.windows.len();
                    let to = match self.active {
                        Some(i) => if i < n - 1 {
                            Some(i + 1)
                        } else {
                            None
                        },
                        None => if n > 0 {
                            Some(0)
                        } else {
                            None
                        },
                    };
                    self.cycle(to)
                } else {
                    Action::Done
                }
            },
            KeyCode::Enter => {
                let line = self.take_input();
                let cmd = parse_command(line.as_str());
                self.run_command(cmd, ts)
            },
            KeyCode::Tab => {
                self.do_tab();
                Action::Done
            },
            KeyCode::Backspace => {
                self.erase_char();
                Action::Done
            },
            KeyCode::Other => Action::Done,
        }
    }

    /// Does what a key does at the present time; `None`, and nothing is done, where
    /// the key is Enter and the line cannot be run.
    pub fn on_key(&mut self, key: Key) -> (r: Option<Action>)
        requires
            old(self).wf(),
        ensures
            final(self).wf(),
            r is Some <==> old(self)@.takes(key),
            match r {
                Some(a) => in_range(a@, final(self)@.windows.len()) && exists|ts: Seq<char>|
                    is_clock(ts) && (Step { app: final(self)@, action: a@ }) == #[trigger] old(
                        self,
                    )@.keyed(key, ts),
                None => final(self)@ == old(self)@,
            },
    {
        if key.pressed && key.code == KeyCode::Enter && !self.can_run(self.input.as_str()) {
            return None;
        }
        let ts = now();
        Some(self.on_key_at(key, ts.as_str()))
    }
}

// ── Messages ─────────────────────────────────────────────────────────────────

/// A new message in a chat.
#[derive(Debug)]
pub struct NewMessage {
    pub peer: Peer,
    pub message: Message,
    /// Whether the message mentions the user.
    pub mentioned: bool,
}

/// The model of a new message.
#[verifier::ext_equal]
pub struct NewMessageView {
    pub peer: PeerView,
    pub message: MessageView,
    pub mentioned: bool,
}

impl View for NewMessage {
    type V = NewMessageView;

    open spec fn view(&self) -> NewMessageView {
        NewMessageView {
            peer: self.peer@,
            message: self.message@,
            mentioned: self.mentioned,
        }
    }
}

impl AppView {
    /// A message of the user, sent from elsewhere or from here: shown in the
    /// window of the chat, which is opened and read in if there is none.
    pub open spec fn own_message(self, peer: PeerView, ts: Seq<char>, text: Seq<char>) -> Step {
        match window_of(self.windows, peer.id) {
            Some(i) => Step { app: self.echoed(i as int, ts, text), action: ActionView::Done },
            None => Step {
                app: self.with_peer(peer).with_new_window(
                    peer,
                    or_else_text(peer.name, "Saved Messages"@),
                ),
                action: read_in(self.windows.len() as usize, AfterView::Echo { ts, text }),
            },
        }
    }

    /// A new message, sent at `ts`, taken in, if it shows anything.
    pub open spec fn received(self, new: NewMessageView, ts: Seq<char>) -> Step {
        match new.message.shown() {
            Some(text) => if new.message.outgoing {
                self.own_message(new.peer, ts, text)
            } else {
                Step {
                    app: self.with_incoming(
                        new.peer,
                        ts,
                        new.message.sender_name(),
                        text,
                        new.mentioned,
                    ),
                    action: ActionView::Save,
                }
            },
            None => Step { app: self, action: ActionView::Done },
        }
    }
}

impl App {
    fn take_own_message(&mut self, peer: &Peer, ts: &str, text: String) -> (r: Action)
        requires
            old(self).wf(),
        ensures
            final(self).wf(),
            (Step { app: final(self)@, action: r@ }) == old(self)@.own_message(peer@, ts@, text@),
            in_range(r@, final(self)@.windows.len()),
    {
        match position(&self.windows, peer.id) {
            Some(i) => {
                self.push_echo(i, ts, text.as_str());
                Action::Done
            },
            None => {
                self.add_peer(peer);
                let i = self.open_window(peer, text_or(&peer.name, "Saved Messages"));
                Action::LoadHistory {
                    win: i,
                    limit: HISTORY_LIMIT,
                    next: AfterHistory::Echo { ts: ts.to_owned(), text },
                }
            },
        }
    }

    /// Takes in a new message, sent at `ts`.
    pub fn on_message_at(&mut self, new: &NewMessage, ts: &str) -> (r: Action)
        requires
            old(self).wf(),
        ensures
            final(self).wf(),
            (Step { app: final(self)@, action: r@ }) == old(self)@.received(new@, ts@),
            in_range(r@, final(self)@.windows.len()),
    {
        match caption(new.message.text.as_str(), &new.message.media) {
            Some(text) => if new.message.outgoing {
                self.take_own_message(&new.peer, ts, text)
            } else {
                self.push_incoming(
                    &new.peer,
                    ts,
                    new.message.sender_name(),
                    text.as_str(),
                    new.mentioned,
                );
                Action::Save
            },
            None => Action::Done,
        }
    }

    /// Takes in a new message.
    pub fn on_message(&mut self, new: &NewMessage) -> (r: Action)
        requires
            old(self).wf(),
        ensures
            final(self).wf(),
            in_range(r@, final(self)@.windows.len()),
            exists|ts: Seq<char>|
                is_clock(ts) && shown_at(new@.message.date, ts) && (Step {
                    app: final(self)@,
                    action: r@,
                }) == #[trigger] old(self)@.received(new@, ts),
    {
        let ts = local_time(new.message.date);
        self.on_message_at(new, ts.as_str())
    }
}

// ── Time ─────────────────────────────────────────────────────────────────────

impl AppView {
    /// What is asked from time to time: to bring the window in front up to date.
    pub open spec fn refresh_due(self) -> ActionView {
        match self.active {
            Some(i) => ActionView::Refresh { win: i, limit: REFRESH_LIMIT },
            None => ActionView::Done,
        }
    }

    /// The state once the client is ready.
    pub open spec fn ready(self, ts: Seq<char>) -> AppView {
        self.with_status(
            ts,
            "irssi-tg ready — "@ + decimal_of(self.ordered_chats.len()) + " contacts cached."@,
        ).with_status(ts, "/help for commands  |  Tab completes names in /join and /msg"@)
    }
}

impl App {
    /// What is asked from time to time: to bring the window in front up to date.
    pub fn on_tick(&self) -> (r: Action)
        requires
            self.wf(),
        ensures
            r@ == self@.refresh_due(),
            in_range(r@, self@.windows.len()),
    {
        match self.active {
            Some(win) => Action::Refresh { win, limit: REFRESH_LIMIT },
            None => Action::Done,
        }
    }

    /// Reports that the client is ready, with lines stamped `ts`.
    pub fn announce_at(&mut self, ts: &str)
        requires
            old(self).wf(),
        ensures
            final(self).wf(),
            final(self)@ == old(self)@.ready(ts@),
    {
        let n = decimal(self.ordered_chats.len() as u128);
        let note = wrapped("irssi-tg ready — ", n.as_str(), " contacts cached.");
        self.push_status_at(ts, note.as_str());
        self.push_status_at(ts, "/help for commands  |  Tab completes names in /join and /msg");
    }

    /// Reports that the client is ready.
    pub fn announce(&mut self)
        requires
            old(self).wf(),
        ensures
            final(self).wf(),
            exists|ts: Seq<char>| is_clock(ts) && final(self)@ == #[trigger] old(self)@.ready(ts),
    {
        let ts = now();
        self.announce_at(ts.as_str());
    }
}

} // verus!
