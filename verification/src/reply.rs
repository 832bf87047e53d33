//! What is done with the answers of the outside world.
use std::collections::VecDeque;
use vstd::prelude::*;
use crate::action::{in_range, Action, ActionView, AfterHistory, AfterView, SendKind, NAMES_LIMIT};
use crate::app::{
    action_line, action_line_at, lemma_windows_update, lines_view, own_line, own_line_at, App,
    AppView, ChatLine, LineView, WindowView,
};
use crate::chats::lemma_window_wf;
use crate::clock::{is_clock, now};
use crate::dispatch::{concat, found_line, Step};
use crate::history::{messages_view, stamps_for, times_of, wrapped, Message, MessageView};
use crate::order::{sort_names, sort_of};
use crate::peer::{text_or, Peer, PeerView};
use crate::roster::{member_names, names_of, roster, roster_of, Member};
use crate::text::{decimal, decimal_of, same, texts};

verus! {

// ── Messages read in ─────────────────────────────────────────────────────────

/// Whether the last line is a message of the user with this text.
pub open spec fn ends_with_own(lines: Seq<LineView>, text: Seq<char>) -> bool {
    lines.len() > 0 && lines.last().prefix == "<You>"@ && lines.last().text == text
        && !lines.last().is_sys
}

/// Whether the last line was read in.
pub open spec fn ends_read_in(lines: Seq<LineView>) -> bool {
    lines.len() > 0 && lines.last().read_in
}

/// The models of messages, where they could be fetched.
pub open spec fn opt_messages(o: Option<Vec<Message>>) -> Option<Seq<MessageView>> {
    match o {
        Some(v) => Some(messages_view(v@)),
        None => None,
    }
}

/// The messages; none where they could not be fetched.
pub open spec fn all_messages(o: Option<Seq<MessageView>>) -> Seq<MessageView> {
    match o {
        Some(s) => s,
        None => Seq::empty(),
    }
}

impl AppView {
    /// The state with a message of the user that came from elsewhere in window
    /// `i`, unless the window ends with it and got it here, not by reading in.
    pub open spec fn echoed(self, i: int, ts: Seq<char>, text: Seq<char>) -> AppView {
        if ends_with_own(self.windows[i].lines, text) && !ends_read_in(self.windows[i].lines) {
            self
        } else {
            self.with_capped_line(i, own_line(ts, text))
        }
    }

    /// The state with the message of the user for which window `i` was opened and
    /// read in. What was read in may end with this message, and then shows it.
    pub open spec fn caught_up(self, i: int, ts: Seq<char>, text: Seq<char>) -> AppView {
        if ends_with_own(self.windows[i].lines, text) {
            self
        } else {
            self.with_capped_line(i, own_line(ts, text))
        }
    }

    /// The past of window `i` read in, where it could be fetched.
    pub open spec fn past_read(
        self,
        i: int,
        msgs: Option<Seq<MessageView>>,
        stamps: Seq<Seq<char>>,
    ) -> AppView {
        match msgs {
            Some(msgs) => self.with_history(i, msgs, stamps),
            None => self,
        }
    }

    /// What follows a reading of window `win`.
    pub open spec fn went_on(self, win: usize, next: AfterView, ts: Seq<char>) -> Step {
        match next {
            AfterView::Save => Step { app: self, action: ActionView::Save },
            AfterView::Closed { name } => Step {
                app: self.with_sys(ts, "-!- Closed: "@ + name),
                action: ActionView::Save,
            },
            AfterView::Send { peer, text } => Step {
                app: self,
                action: ActionView::Send { win, peer, text, kind: SendKind::Message },
            },
            AfterView::Reloaded => Step {
                app: self.with_sys(ts, "-!- Done."@),
                action: ActionView::Done,
            },
            AfterView::Restored { count } => Step {
                app: self.with_status(
                    ts,
                    "Restored "@ + decimal_of(count as nat) + " windows from last session."@,
                ),
                action: ActionView::Done,
            },
            AfterView::Echo { ts: sent, text } => Step {
                app: self.caught_up(win as int, sent, text),
                action: ActionView::Save,
            },
        }
    }

    /// The past of window `win` read in, and what follows.
    pub open spec fn history_read(
        self,
        win: usize,
        msgs: Option<Seq<MessageView>>,
        stamps: Seq<Seq<char>>,
        next: AfterView,
        ts: Seq<char>,
    ) -> Step {
        self.past_read(win as int, msgs, stamps).went_on(win, next, ts)
    }
}

/// Whether the last line is a message of the user with this text.
fn is_last_own(lines: &VecDeque<ChatLine>, text: &str) -> (r: bool)
    ensures
        r == ends_with_own(lines_view(lines@), text@),
{
    let n = lines.len();
    if n == 0 {
        return false;
    }
    assert(lines_view(lines@).last() == lines@[n - 1]@);
    let last = &lines[n - 1];
    same(last.prefix.as_str(), "<You>") && same(last.text.as_str(), text) && !last.is_sys
}

/// Whether the last line was read in.
fn is_last_read_in(lines: &VecDeque<ChatLine>) -> (r: bool)
    ensures
        r == ends_read_in(lines_view(lines@)),
{
    let n = lines.len();
    if n == 0 {
        return false;
    }
    assert(lines_view(lines@).last() == lines@[n - 1]@);
    lines[n - 1].read_in
}

impl App {
    /// Adds the message of the user for which window `i` was opened and read in,
    /// unless the window ends with it.
    fn push_first(&mut self, i: usize, ts: &str, text: &str)
        requires
            old(self).wf(),
            i < old(self)@.windows.len(),
        ensures
            final(self).wf(),
            final(self)@ == old(self)@.caught_up(i as int, ts@, text@),
    {
        assert(self@.windows[i as int] == self.windows@[i as int]@);
        if !is_last_own(&self.windows[i].lines, text) {
            self.push_window_line(i, own_line_at(ts, text));
        }
    }

    /// Adds a message of the user that came from elsewhere to window `i`, unless
    /// the window ends with it and got it here, not by reading in.
    pub fn push_echo(&mut self, i: usize, ts: &str, text: &str)
        requires
            old(self).wf(),
            i < old(self)@.windows.len(),
        ensures
            final(self).wf(),
            final(self)@ == old(self)@.echoed(i as int, ts@, text@),
    {
        assert(self@.windows[i as int] == self.windows@[i as int]@);
        if !is_last_own(&self.windows[i].lines, text) || is_last_read_in(&self.windows[i].lines) {
            self.push_window_line(i, own_line_at(ts, text));
        }
    }

    /// Does what follows a reading of window `win`, with lines stamped `ts`.
    fn go_on(&mut self, win: usize, next: AfterHistory, ts: &str) -> (r: Action)
        requires
            old(self).wf(),
            win < old(self)@.windows.len(),
        ensures
            final(self).wf(),
            final(self)@ == old(self)@.went_on(win, next@, ts@).app,
            r@ == old(self)@.went_on(win, next@, ts@).action,
            in_range(r@, final(self)@.windows.len()),
    {
        match next {
            AfterHistory::Save => Action::Save,
            AfterHistory::Closed { name } => {
                let note = concat("-!- Closed: ", name.as_str());
                self.push_sys_at(ts, note.as_str());
                Action::Save
            },
            AfterHistory::Send { peer, text } => Action::Send {
                win,
                peer,
                text,
                kind: SendKind::Message,
            },
            AfterHistory::Reloaded => {
                self.push_sys_at(ts, "-!- Done.");
                Action::Done
            },
            AfterHistory::Restored { count } => {
                let n = decimal(count as u128);
                let note = wrapped("Restored ", n.as_str(), " windows from last session.");
                self.push_status_at(ts, note.as_str());
                Action::Done
            },
            AfterHistory::Echo { ts: sent, text } => {
                self.push_first(win, sent.as_str(), text.as_str());
                Action::Save
            },
        }
    }

    /// Takes in the newest messages of window `win`, newest first and stamped
    /// `stamps`, or that they could not be fetched, and goes on with lines stamped
    /// `ts`.
    pub fn history_done_at(
        &mut self,
        win: usize,
        msgs: &Option<Vec<Message>>,
        stamps: &Vec<String>,
        next: AfterHistory,
        ts: &str,
    ) -> (r: Action)
        requires
            old(self).wf(),
            win < old(self)@.windows.len(),
            stamps@.len() == all_messages(opt_messages(*msgs)).len(),
        ensures
            final(self).wf(),
            (Step { app: final(self)@, action: r@ }) == old(self)@.history_read(
                win,
                opt_messages(*msgs),
                texts(stamps@),
                next@,
                ts@,
            ),
            in_range(r@, final(self)@.windows.len()),
    {
        if let Some(m) = msgs {
            self.show_history(win, m, stamps);
        }
        self.go_on(win, next, ts)
    }

    /// Takes in the newest messages of window `win`, newest first, or that they
    /// could not be fetched, and goes on.
    pub fn history_done(&mut self, win: usize, msgs: &Option<Vec<Message>>, next: AfterHistory) -> (r:
        Action)
        requires
            old(self).wf(),
            win < old(self)@.windows.len(),
        ensures
            final(self).wf(),
            in_range(r@, final(self)@.windows.len()),
            exists|stamps: Seq<Seq<char>>, ts: Seq<char>|
                stamps_for(stamps, all_messages(opt_messages(*msgs))) && is_clock(ts) && (Step {
                    app: final(self)@,
                    action: r@,
                }) == #[trigger] old(self)@.history_read(
                    win,
                    opt_messages(*msgs),
                    stamps,
                    next@,
                    ts,
                ),
    {
        let stamps = match msgs {
            Some(m) => times_of(m),
            None => Vec::new(),
        };
        let ts = now();
        assert(stamps_for(texts(stamps@), all_messages(opt_messages(*msgs))));
        self.history_done_at(win, msgs, &stamps, next, ts.as_str())
    }
}

// ── Messages sent ────────────────────────────────────────────────────────────

/// What became of a message to send.
#[derive(Debug)]
pub enum SendOutcome {
    Sent,
    /// The chat could not be found out.
    Unresolved,
    Failed { error: String },
}

/// The model of what became of a message.
#[verifier::ext_equal]
pub enum OutcomeView {
    Sent,
    Unresolved,
    Failed { error: Seq<char> },
}

impl View for SendOutcome {
    type V = OutcomeView;

    open spec fn view(&self) -> OutcomeView {
        match *self {
            SendOutcome::Sent => OutcomeView::Sent,
            SendOutcome::Unresolved => OutcomeView::Unresolved,
            SendOutcome::Failed { error } => OutcomeView::Failed { error: error@ },
        }
    }
}

/// The line of a message that was sent.
pub open spec fn sent_line(kind: SendKind, ts: Seq<char>, text: Seq<char>) -> LineView {
    match kind {
        SendKind::Trout => action_line(ts, text),
        SendKind::Me => action_line(ts, text),
        SendKind::Message => own_line(ts, text),
        SendKind::Say => own_line(ts, text),
    }
}

impl AppView {
    /// What follows once it is known what became of a message.
    pub open spec fn sending_done(
        self,
        win: usize,
        text: Seq<char>,
        kind: SendKind,
        outcome: OutcomeView,
        ts: Seq<char>,
    ) -> Step {
        match outcome {
            OutcomeView::Sent => Step {
                app: self.with_line(win as int, sent_line(kind, ts, text)),
                action: if kind == SendKind::Trout || kind == SendKind::Message {
                    ActionView::Save
                } else {
                    ActionView::Done
                },
            },
            OutcomeView::Unresolved => Step {
                app: if kind == SendKind::Me {
                    self
                } else {
                    self.with_sys(ts, "-!- Could not resolve peer."@)
                },
                action: ActionView::Done,
            },
            OutcomeView::Failed { error } => Step {
                app: self.with_sys(ts, "-!- Error: "@ + error),
                action: ActionView::Done,
            },
        }
    }
}

impl App {
    /// Adds a line to window `i`, over the limit if need be.
    fn append_line(&mut self, i: usize, line: ChatLine)
        requires
            old(self).wf(),
            i < old(self)@.windows.len(),
        ensures
            final(self).wf(),
            final(self)@ == old(self)@.with_line(i as int, line@),
    {
        let ghost before = *self;
        self.windows[i].lines.push_back(line);
        proof {
            let want = before@.with_line(i as int, line@);
            lemma_windows_update(before.windows@, self.windows@, i as int);
            assert(lines_view(self.windows@[i as int].lines@) =~= want.windows[i as int].lines);
            assert(self.windows@[i as int]@ =~= want.windows[i as int]);
            assert(self@ =~= want);
            lemma_window_wf(before@, i as int, want.windows[i as int]);
        }
    }

    /// Takes in what became of a message, with lines stamped `ts`.
    pub fn send_done_at(
        &mut self,
        win: usize,
        text: &str,
        kind: SendKind,
        outcome: &SendOutcome,
        ts: &str,
    ) -> (r: Action)
        requires
            old(self).wf(),
            win < old(self)@.windows.len(),
        ensures
            final(self).wf(),
            (Step { app: final(self)@, action: r@ }) == old(self)@.sending_done(
                win,
                text@,
                kind,
                outcome@,
                ts@,
            ),
    {
        match outcome {
            SendOutcome::Sent => match kind {
                SendKind::Trout => {
                    self.append_line(win, action_line_at(ts, text));
                    Action::Save
                },
                SendKind::Message => {
                    self.append_line(win, own_line_at(ts, text));
                    Action::Save
                },
                SendKind::Me => {
                    self.append_line(win, action_line_at(ts, text));
                    Action::Done
                },
                SendKind::Say => {
                    self.append_line(win, own_line_at(ts, text));
                    Action::Done
                },
            },
            SendOutcome::Unresolved => {
                if kind != SendKind::Me {
                    self.push_sys_at(ts, "-!- Could not resolve peer.");
                }
                Action::Done
            },
            SendOutcome::Failed { error } => {
                let note = concat("-!- Error: ", error.as_str());
                self.push_sys_at(ts, note.as_str());
                Action::Done
            },
        }
    }

    /// Takes in what became of a message.
    pub fn send_done(&mut self, win: usize, text: &str, kind: SendKind, outcome: &SendOutcome) -> (r:
        Action)
        requires
            old(self).wf(),
            win < old(self)@.windows.len(),
        ensures
            final(self).wf(),
            exists|ts: Seq<char>|
                is_clock(ts) && (Step { app: final(self)@, action: r@ }) == #[trigger] old(
                    self,
                )@.sending_done(win, text@, kind, outcome@, ts),
    {
        let ts = now();
        self.send_done_at(win, text, kind, outcome, ts.as_str())
    }
}

// ── Members of a chat ────────────────────────────────────────────────────────

/// The names of members, where they could be fetched.
pub open spec fn opt_members(o: Option<Vec<Member>>) -> Option<Seq<Seq<char>>> {
    match o {
        Some(v) => Some(member_names(v@)),
        None => None,
    }
}

/// The first names, as many as are listed, sorted.
pub open spec fn listed_names(names: Seq<Seq<char>>) -> Seq<Seq<char>> {
    sort_of(
        if names.len() > NAMES_LIMIT {
            names.take(NAMES_LIMIT as int)
        } else {
            names
        },
    )
}

impl AppView {
    /// The state with new nicks in window `win`, if there is one.
    pub open spec fn with_nicks(self, win: Option<usize>, nicks: Seq<Seq<char>>) -> AppView {
        match win {
            Some(i) => self.with_window(i as int, WindowView { nicks, ..self.windows[i as int] }),
            None => self,
        }
    }

    /// The members of a chat taken in and shown, where the chat could be found out.
    pub open spec fn names_shown(
        self,
        peer: PeerView,
        win: Option<usize>,
        members: Option<Seq<Seq<char>>>,
        ts: Seq<char>,
    ) -> AppView {
        match members {
            Some(names) => self.with_nicks(win, listed_names(names)).with_sys_all(
                ts,
                roster_of(peer.label(), listed_names(names)),
            ),
            None => self,
        }
    }
}

impl App {
    fn set_nicks(&mut self, win: Option<usize>, nicks: Vec<String>)
        requires
            old(self).wf(),
            win matches Some(i) ==> i < old(self)@.windows.len(),
        ensures
            final(self).wf(),
            final(self)@ == old(self)@.with_nicks(win, texts(nicks@)),
    {
        let ghost before = *self;
        if let Some(i) = win {
            self.windows[i].nicks = nicks;
            proof {
                let want = before@.with_nicks(win, texts(nicks@));
                lemma_windows_update(before.windows@, self.windows@, i as int);
                assert(self.windows@[i as int]@ =~= want.windows[i as int]);
                assert(self@ =~= want);
                lemma_window_wf(before@, i as int, want.windows[i as int]);
            }
        }
    }

    /// Takes in the members of the chat `peer`, whose window is `win`, and lists
    /// them, with lines stamped `ts`.
    pub fn names_done_at(
        &mut self,
        peer: &Peer,
        win: Option<usize>,
        members: &Option<Vec<Member>>,
        ts: &str,
    )
        requires
            old(self).wf(),
            win matches Some(i) ==> i < old(self)@.windows.len(),
        ensures
            final(self).wf(),
            final(self)@ == old(self)@.names_shown(peer@, win, opt_members(*members), ts@),
    {
        if let Some(m) = members {
            let names = sort_names(&names_of(m, NAMES_LIMIT));
            assert(texts(names@) == listed_names(member_names(m@)));
            let lines = roster(peer.label(), &names);
            self.set_nicks(win, names);
            self.push_all(ts, &lines);
        }
    }

    /// Takes in the members of the chat `peer`, whose window is `win`, and lists
    /// them.
    pub fn names_done(&mut self, peer: &Peer, win: Option<usize>, members: &Option<Vec<Member>>)
        requires
            old(self).wf(),
            win matches Some(i) ==> i < old(self)@.windows.len(),
        ensures
            final(self).wf(),
            exists|ts: Seq<char>|
                is_clock(ts) && final(self)@ == #[trigger] old(self)@.names_shown(
                    peer@,
                    win,
                    opt_members(*members),
                    ts,
                ),
    {
        let ts = now();
        self.names_done_at(peer, win, members, ts.as_str());
    }
}

// ── Chats found ──────────────────────────────────────────────────────────────

/// The models of a row of peers.
pub open spec fn peers_view(s: Seq<Peer>) -> Seq<PeerView> {
    Seq::new(s.len(), |i: int| s[i]@)
}

/// The model of what a search gave.
pub open spec fn found_view(r: Result<Vec<Peer>, String>) -> Result<Seq<PeerView>, Seq<char>> {
    match r {
        Ok(v) => Ok(peers_view(v@)),
        Err(e) => Err(e@),
    }
}

impl AppView {
    /// The chats found shown and entered into the directory, one after another.
    pub open spec fn with_found(self, peers: Seq<PeerView>, ts: Seq<char>) -> AppView
        decreases peers.len(),
    {
        if peers.len() == 0 {
            self
        } else {
            self.with_found(peers.drop_last(), ts).with_sys(ts, found_line(peers.last())).with_peer(
                peers.last(),
            )
        }
    }

    /// The state after a search.
    pub open spec fn searched(
        self,
        found: Result<Seq<PeerView>, Seq<char>>,
        ts: Seq<char>,
    ) -> AppView {
        match found {
            Ok(peers) => if peers.len() == 0 {
                self.with_sys(ts, "-!- No results."@)
            } else {
                self.with_found(peers, ts)
            },
            Err(error) => self.with_sys(ts, "-!- Error: "@ + error),
        }
    }
}

impl App {
    fn show_found(&mut self, peers: &Vec<Peer>, ts: &str)
        requires
            old(self).wf(),
        ensures
            final(self).wf(),
            final(self)@ == old(self)@.with_found(peers_view(peers@), ts@),
    {
        let ghost before = self@;
        let ghost all = peers_view(peers@);
        let mut i: usize = 0;
        while i < peers.len()
            invariant
                i <= peers@.len(),
                self.wf(),
                all == peers_view(peers@),
                self@ == before.with_found(all.take(i as int), ts@),
            decreases peers.len() - i,
        {
            let peer = &peers[i];
            assert(all.take(i + 1).drop_last() =~= all.take(i as int));
            assert(all[i as int] == peer@);
            let mut s = "  ".to_owned();
            s.append(peer.label());
            s.append(" (@");
            s.append(text_or(&peer.username, "none"));
            s.append(")");
            self.push_sys_at(ts, s.as_str());
            self.add_peer(peer);
            i = i + 1;
        }
        assert(all.take(i as int) =~= all);
    }

    /// Takes in what a search gave, with lines stamped `ts`.
    pub fn search_done_at(&mut self, found: &Result<Vec<Peer>, String>, ts: &str)
        requires
            old(self).wf(),
        ensures
            final(self).wf(),
            final(self)@ == old(self)@.searched(found_view(*found), ts@),
    {
        match found {
            Ok(peers) => if peers.len() == 0 {
                self.push_sys_at(ts, "-!- No results.");
            } else {
                self.show_found(peers, ts);
            },
            Err(error) => {
                let note = concat("-!- Error: ", error.as_str());
                self.push_sys_at(ts, note.as_str());
            },
        }
    }

    /// Takes in what a search gave.
    pub fn search_done(&mut self, found: &Result<Vec<Peer>, String>)
        requires
            old(self).wf(),
        ensures
            final(self).wf(),
            exists|ts: Seq<char>|
                is_clock(ts) && final(self)@ == #[trigger] old(self)@.searched(
                    found_view(*found),
                    ts,
                ),
    {
        let ts = now();
        self.search_done_at(found, ts.as_str());
    }
}

} // verus!
