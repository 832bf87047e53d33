//! Running commands: what each does to the state and what it asks of the outside
//! world.
//!
//! The lines of one step carry one reading of the clock.
use vstd::prelude::*;
use vstd::utf8::{decode_utf8, encode_utf8, is_char_boundary};
use crate::action::{
    in_range, read_in, Action, ActionView, AfterHistory, AfterView, SendKind, HISTORY_LIMIT,
};
use crate::app::{
    entries_view, lemma_windows_update, position, window_of, windows_view, App, AppView, EntryView,
    WindowActivity, WindowView,
};
use crate::chats::lemma_window_wf;
use crate::clock::{is_clock, now};
use crate::command::{command_of, parse_command, Command, CommandView, OpenKind};
use crate::history::wrapped;
use crate::peer::{best_match_is_longest, or_else_text, text_or, Peer, PeerView};
use crate::text::{
    byte_len, byte_len_of, contains, decimal, decimal_int, decimal_of, decimal_signed, has_infix,
    lower, lowercase, texts, trim, trimmed,
};

verus! {

/// A state of the client and what it asks next.
#[verifier::ext_equal]
pub struct Step {
    pub app: AppView,
    pub action: ActionView,
}

// ── Windows ──────────────────────────────────────────────────────────────────

impl AppView {
    /// The state with window `i` in front and looked at.
    pub open spec fn selected(self, i: int) -> AppView {
        AppView {
            active: Some(i as usize),
            windows: self.windows.update(
                i,
                WindowView {
                    unread: 0,
                    activity: WindowActivity::Quiet,
                    ..self.windows[i]
                },
            ),
            ..self
        }
    }

    /// The status window put in front.
    pub open spec fn to_status(self, ts: Seq<char>) -> Step {
        Step {
            app: (AppView { active: None, ..self }).with_status(ts, "Switched to status window."@),
            action: ActionView::Save,
        }
    }

    /// Window `i` put in front.
    pub open spec fn to_window(self, i: int, ts: Seq<char>) -> Step {
        Step {
            app: self.selected(i).with_sys(ts, "-!- Now in: "@ + self.windows[i].name),
            action: read_in(i as usize, AfterView::Save),
        }
    }

    /// The window of a number put in front: 1 is the status window, 2 the first
    /// chat window.
    pub open spec fn switched(self, number: usize, ts: Seq<char>) -> Step {
        let i = if number < 2 { 0 } else { number - 2 };
        if number == 1 {
            self.to_status(ts)
        } else if i < self.windows.len() {
            self.to_window(i, ts)
        } else {
            Step { app: self, action: ActionView::Save }
        }
    }

    /// The entry of window `i` in the list of windows.
    pub open spec fn window_item(self, i: int) -> Seq<char> {
        let star = if self.active == Some(i as usize) {
            "*"@
        } else {
            " "@
        };
        "  ["@ + decimal_of((i + 2) as nat) + star + "] "@ + self.windows[i].name
    }

    /// The list of windows.
    pub open spec fn window_list(self) -> Seq<Seq<char>> {
        seq!["  [1] (status)"@] + Seq::new(self.windows.len(), |i: int| self.window_item(i))
    }

    /// Window `i` closed. The one in front before stays in front; in place of it,
    /// the first one comes in front.
    pub open spec fn closed(self, i: int, ts: Seq<char>) -> Step {
        let name = self.windows[i].name;
        let rest = self.windows.remove(i);
        let report = "-!- Closed: "@ + name;
        if rest.len() == 0 {
            Step {
                app: (AppView { windows: rest, active: None, ..self }).with_sys(ts, report),
                action: ActionView::Save,
            }
        } else if self.active == Some(i as usize) {
            Step {
                app: AppView {
                    windows: rest.update(0, WindowView { unread: 0, ..rest[0] }),
                    active: Some(0),
                    ..self
                },
                action: read_in(0, AfterView::Closed { name }),
            }
        } else {
            let active = match self.active {
                Some(a) => if a > i {
                    Some((a - 1) as usize)
                } else {
                    Some(a)
                },
                None => None,
            };
            Step {
                app: (AppView { windows: rest, active, ..self }).with_sys(ts, report),
                action: ActionView::Save,
            }
        }
    }

    /// Window `i` closed, if there is one.
    pub open spec fn close(self, i: Option<usize>, ts: Seq<char>) -> Step {
        match i {
            Some(i) => if i < self.windows.len() {
                self.closed(i as int, ts)
            } else {
                Step { app: self, action: ActionView::Done }
            },
            None => Step { app: self, action: ActionView::Done },
        }
    }
}

/// The index of the window of a number.
pub open spec fn index_of_number(number: usize) -> usize {
    if number < 2 {
        0
    } else {
        (number - 2) as usize
    }
}

proof fn lemma_selected_wf(v: AppView, i: int)
    requires
        v.wf(),
        0 <= i < v.windows.len(),
    ensures
        v.selected(i).wf(),
        v.selected(i).windows.len() == v.windows.len(),
{
    let w = WindowView { unread: 0, activity: WindowActivity::Quiet, ..v.windows[i] };
    lemma_window_wf(v, i, w);
}

proof fn lemma_removed_wf(v: AppView, i: int, active: Option<usize>)
    requires
        v.wf(),
        0 <= i < v.windows.len(),
        active matches Some(a) ==> a < v.windows.len() - 1,
    ensures
        (AppView { windows: v.windows.remove(i), active, ..v }).wf(),
{
    let r = AppView { windows: v.windows.remove(i), active, ..v };
    assert forall|a: int, b: int| 0 <= a < b < r.windows.len() implies (
    #[trigger] r.windows[a]).peer.id != (#[trigger] r.windows[b]).peer.id by {
        let x = if a < i {
            a
        } else {
            a + 1
        };
        let y = if b < i {
            b
        } else {
            b + 1
        };
        assert(r.windows[a] == v.windows[x]);
        assert(r.windows[b] == v.windows[y]);
    }
}

/// Two texts in a row.
pub fn concat(a: &str, b: &str) -> (r: String)
    ensures
        r@ == a@ + b@,
{
    let mut s = a.to_owned();
    s.append(b);
    s
}

impl App {
    /// Puts window `i` in front and marks it as looked at.
    pub fn select(&mut self, i: usize)
        requires
            old(self).wf(),
            i < old(self)@.windows.len(),
        ensures
            final(self).wf(),
            final(self)@ == old(self)@.selected(i as int),
    {
        let ghost before = *self;
        self.active = Some(i);
        self.windows[i].unread = 0;
        self.windows[i].activity = WindowActivity::Quiet;
        proof {
            lemma_windows_update(before.windows@, self.windows@, i as int);
            assert(self.windows@[i as int]@ =~= before@.selected(i as int).windows[i as int]);
            assert(self@ =~= before@.selected(i as int));
            lemma_selected_wf(before@, i as int);
        }
    }

    /// Puts the status window in front.
    pub fn go_to_status(&mut self, ts: &str) -> (r: Action)
        requires
            old(self).wf(),
        ensures
            final(self).wf(),
            final(self)@ == old(self)@.to_status(ts@).app,
            r@ == old(self)@.to_status(ts@).action,
    {
        let ghost before = self@;
        self.active = None;
        assert(self@ =~= (AppView { active: None, ..before }));
        self.push_status_at(ts, "Switched to status window.");
        Action::Save
    }

    /// Puts window `i` in front and asks for its past.
    pub fn go_to_window(&mut self, i: usize, ts: &str) -> (r: Action)
        requires
            old(self).wf(),
            i < old(self)@.windows.len(),
        ensures
            final(self).wf(),
            final(self)@ == old(self)@.to_window(i as int, ts@).app,
            r@ == old(self)@.to_window(i as int, ts@).action,
            final(self)@.windows.len() == old(self)@.windows.len(),
    {
        assert(self@.windows[i as int] == self.windows@[i as int]@);
        let note = concat("-!- Now in: ", self.windows[i].name.as_str());
        self.select(i);
        self.push_sys_at(ts, note.as_str());
        Action::LoadHistory { win: i, limit: HISTORY_LIMIT, next: AfterHistory::Save }
    }

    /// Puts the window of a number in front.
    pub fn switch(&mut self, number: usize, ts: &str) -> (r: Action)
        requires
            old(self).wf(),
        ensures
            final(self).wf(),
            final(self)@ == old(self)@.switched(number, ts@).app,
            r@ == old(self)@.switched(number, ts@).action,
            in_range(r@, final(self)@.windows.len()),
    {
        if number == 1 {
            return self.go_to_status(ts);
        }
        let i: usize = if number < 2 { 0 } else { number - 2 };
        if i < self.windows.len() {
            self.go_to_window(i, ts)
        } else {
            Action::Save
        }
    }

    /// The list of windows.
    pub fn list_windows(&self) -> (out: Vec<String>)
        ensures
            texts(out@) == self@.window_list(),
    {
        let mut out: Vec<String> = Vec::new();
        out.push("  [1] (status)".to_owned());
        let mut i: usize = 0;
        assert(texts(out@) =~= self@.window_list().take(1));
        while i < self.windows.len()
            invariant
                i <= self.windows@.len(),
                out@.len() == i + 1,
                texts(out@) == self@.window_list().take(i + 1),
            decreases self.windows.len() - i,
        {
            let in_front = match self.active {
                Some(a) => a == i,
                None => false,
            };
            assert(self@.windows[i as int] == self.windows@[i as int]@);
            let mut s = "  [".to_owned();
            let n = decimal(i as u128 + 2);
            s.append(n.as_str());
            s.append(if in_front { "*" } else { " " });
            s.append("] ");
            s.append(self.windows[i].name.as_str());
            assert(s@ =~= self@.window_item(i as int));
            let ghost before = texts(out@);
            out.push(s);
            assert(texts(out@) =~= before.push(s@));
            assert(self@.window_list()[i + 1] == self@.window_item(i as int));
            assert(texts(out@) =~= self@.window_list().take(i + 2));
            i = i + 1;
        }
        assert(self@.window_list().take(i + 1) =~= self@.window_list());
        out
    }

    /// Adds client messages to the window in front.
    pub fn push_all(&mut self, ts: &str, msgs: &Vec<String>)
        requires
            old(self).wf(),
        ensures
            final(self).wf(),
            final(self)@ == old(self)@.with_sys_all(ts@, texts(msgs@)),
            final(self)@.windows.len() == old(self)@.windows.len(),
    {
        let ghost before = self@;
        let ghost all = texts(msgs@);
        let mut i: usize = 0;
        while i < msgs.len()
            invariant
                i <= msgs@.len(),
                self.wf(),
                all == texts(msgs@),
                self@ == before.with_sys_all(ts@, all.take(i as int)),
                self@.windows.len() == before.windows.len(),
            decreases msgs.len() - i,
        {
            assert(all.take(i + 1).drop_last() =~= all.take(i as int));
            assert(all[i as int] == msgs@[i as int]@);
            self.push_sys_at(ts, msgs[i].as_str());
            i = i + 1;
        }
        assert(all.take(i as int) =~= all);
    }

    /// Closes window `i`.
    pub fn close_window(&mut self, i: usize, ts: &str) -> (r: Action)
        requires
            old(self).wf(),
            i < old(self)@.windows.len(),
        ensures
            final(self).wf(),
            final(self)@ == old(self)@.closed(i as int, ts@).app,
            r@ == old(self)@.closed(i as int, ts@).action,
            in_range(r@, final(self)@.windows.len()),
    {
        let ghost before = self@;
        assert(before.windows[i as int] == self.windows@[i as int]@);
        let was_active = match self.active {
            Some(a) => a == i,
            None => false,
        };
        let name = self.windows[i].name.clone();
        let report = concat("-!- Closed: ", name.as_str());
        let _ = self.windows.remove(i);
        assert(windows_view(self.windows@) =~= before.windows.remove(i as int));
        if self.windows.len() == 0 {
            self.active = None;
            proof {
                assert(self@ =~= (AppView {
                    windows: before.windows.remove(i as int),
                    active: None,
                    ..before
                }));
                lemma_removed_wf(before, i as int, None);
            }
            self.push_sys_at(ts, report.as_str());
            Action::Save
        } else if was_active {
            let ghost rest = self.windows@;
            self.active = Some(0);
            self.windows[0].unread = 0;
            proof {
                let mid = AppView {
                    windows: before.windows.remove(i as int),
                    active: Some(0),
                    ..before
                };
                lemma_removed_wf(before, i as int, Some(0));
                lemma_windows_update(rest, self.windows@, 0);
                assert(self.windows@[0]@ =~= before.closed(i as int, ts@).app.windows[0]);
                assert(self@ =~= before.closed(i as int, ts@).app);
                lemma_window_wf(mid, 0, self@.windows[0]);
                assert(mid.with_window(0, self@.windows[0]) =~= self@);
            }
            Action::LoadHistory {
                win: 0,
                limit: HISTORY_LIMIT,
                next: AfterHistory::Closed { name },
            }
        } else {
            if let Some(a) = self.active {
                if a > i {
                    self.active = Some(a - 1);
                }
            }
            proof {
                assert(self@ =~= (AppView {
                    windows: before.windows.remove(i as int),
                    active: self.active,
                    ..before
                }));
                lemma_removed_wf(before, i as int, self.active);
            }
            self.push_sys_at(ts, report.as_str());
            Action::Save
        }
    }

    /// Closes window `i`, if there is one.
    fn close_if_any(&mut self, i: Option<usize>, ts: &str) -> (r: Action)
        requires
            old(self).wf(),
        ensures
            final(self).wf(),
            final(self)@ == old(self)@.close(i, ts@).app,
            r@ == old(self)@.close(i, ts@).action,
            in_range(r@, final(self)@.windows.len()),
    {
        if let Some(i) = i {
            if i < self.windows.len() {
                return self.close_window(i, ts);
            }
        }
        Action::Done
    }
}

// ── Chats ────────────────────────────────────────────────────────────────────

/// The list of the chats whose names hold `query`, without regard to case; of all
/// chats, where it is empty.
pub open spec fn chat_list(chats: Seq<EntryView>, query: Seq<char>) -> Seq<Seq<char>> {
    seq!["-!- Channel List:"@] + chats.filter(
        |e: EntryView| query.len() == 0 || has_infix(e.key, lowercase(query)),
    ).map_values(|e: EntryView| "  "@ + e.peer.label()) + seq!["-!- End of /list"@]
}

/// What is told of a peer.
pub open spec fn whois_line(peer: PeerView) -> Seq<char> {
    "-!- WHOIS "@ + peer.label() + " (@"@ + or_else_text(peer.username, "none"@) + ") ID:"@
        + decimal_int(peer.id as int)
}

/// How a chat that a search found is shown.
pub open spec fn found_line(peer: PeerView) -> Seq<char> {
    "  "@ + peer.label() + " (@"@ + or_else_text(peer.username, "none"@) + ")"@
}

/// What a slap says.
pub open spec fn trout_text(name: Seq<char>) -> Seq<char> {
    "* slaps "@ + name + " around a bit with a large trout *"@
}

/// What follows the first `n` bytes of a text.
pub open spec fn tail_bytes(s: Seq<char>, n: nat) -> Seq<char> {
    decode_utf8(encode_utf8(s).subrange(n as int, encode_utf8(s).len() as int))
}

/// Whether a text can be cut behind as many bytes as a name has.
pub open spec fn cuts_after(rest: Seq<char>, key: Seq<char>) -> bool {
    is_char_boundary(encode_utf8(rest), byte_len_of(key) as int)
}

impl AppView {
    /// The chat whose members are asked for, and its window: the one in front, or
    /// the one that `target` names.
    pub open spec fn names_target(self, target: Seq<char>) -> Option<(PeerView, Option<usize>)> {
        if target.len() == 0 {
            match self.active {
                Some(i) => Some((self.windows[i as int].peer, Some(i))),
                None => None,
            }
        } else {
            match self.best_key(target) {
                Some(k) => Some(
                    (self.all_chats[k], window_of(self.windows, self.all_chats[k].id)),
                ),
                None => None,
            }
        }
    }

    /// The members of a chat asked for.
    pub open spec fn asked_names(self, target: Seq<char>, ts: Seq<char>) -> Step {
        match self.names_target(target) {
            Some((peer, win)) => Step {
                app: self.with_sys(ts, "-!- Fetching names for "@ + peer.label() + "..."@),
                action: ActionView::FetchNames { peer, window: win },
            },
            None => Step {
                app: self.with_sys(ts, "-!- Cannot find chat for /names"@),
                action: ActionView::Done,
            },
        }
    }

    /// What is known of a peer told.
    pub open spec fn told_whois(self, target: Seq<char>, ts: Seq<char>) -> AppView {
        match self.best_key(target) {
            Some(k) => self.with_sys(ts, whois_line(self.all_chats[k])),
            None => self.with_sys(ts, "-!- No such nick: "@ + target),
        }
    }

    /// The chat that `rest` names opened, for a purpose.
    pub open spec fn opened(self, kind: OpenKind, rest: Seq<char>, ts: Seq<char>) -> Step {
        match self.best_key(rest) {
            Some(k) => {
                let peer = self.all_chats[k];
                let i = self.focus_index(peer);
                let v = self.focused(peer).selected(i as int);
                let name = v.windows[i as int].name;
                let text = trim(tail_bytes(rest, byte_len_of(k)));
                if kind == OpenKind::Trout {
                    Step {
                        app: v,
                        action: ActionView::Send {
                            win: i,
                            peer,
                            text: trout_text(name),
                            kind: SendKind::Trout,
                        },
                    }
                } else if kind == OpenKind::Message && text.len() > 0 {
                    Step {
                        app: v.with_sys(ts, "-!- Messaging: "@ + name),
                        action: read_in(i, AfterView::Send { peer, text }),
                    }
                } else {
                    Step {
                        app: v.with_sys(ts, "-!- Joining: "@ + name),
                        action: read_in(i, AfterView::Save),
                    }
                }
            },
            None => Step {
                app: self.with_sys(ts, "-!- No match. /search <n> first."@),
                action: ActionView::Done,
            },
        }
    }

    /// Whether a command can be run: where it names a chat by the longest known
    /// name that its argument starts with, the argument can be cut behind as many
    /// bytes as that name has.
    pub open spec fn runnable(self, cmd: CommandView) -> bool {
        cmd matches CommandView::Open { kind, rest } ==> self.best_key(rest) matches Some(k)
            ==> cuts_after(rest, k)
    }
}

/// What follows the first `n` bytes of `s`.
fn tail_of<'a>(s: &'a str, n: usize) -> (r: &'a str)
    requires
        is_char_boundary(encode_utf8(s@), n as int),
    ensures
        r@ == tail_bytes(s@, n as nat),
{
    let (_, tail) = s.split_at(n);
    proof {
        vstd::utf8::encode_utf8_decode_utf8(tail@);
    }
    tail
}

impl App {
    /// The list of the chats whose names hold `query`, without regard to case; of all
/// chats, where it is empty.
    pub fn list_matching(&self, query: &str) -> (out: Vec<String>)
        ensures
            texts(out@) == chat_list(self@.ordered_chats, query@),
    {
        let q = lower(query);
        let bare = query.unicode_len() == 0;
        let ghost all = entries_view(self.ordered_chats@);
        let ghost keep = |e: EntryView| query@.len() == 0 || has_infix(e.key, lowercase(query@));
        let ghost show = |e: EntryView| "  "@ + e.peer.label();
        let ghost head = seq!["-!- Channel List:"@];
        let mut out: Vec<String> = Vec::new();
        out.push("-!- Channel List:".to_owned());
        let mut i: usize = 0;
        proof {
            reveal(Seq::filter);
            assert(texts(out@) =~= head + all.take(0).filter(keep).map_values(show));
        }
        while i < self.ordered_chats.len()
            invariant
                i <= self.ordered_chats@.len(),
                q@ == lowercase(query@),
                all == entries_view(self.ordered_chats@),
                bare == (query@.len() == 0),
                keep == (|e: EntryView|
                    query@.len() == 0 || has_infix(e.key, lowercase(query@))),
                show == (|e: EntryView| "  "@ + e.peer.label()),
                texts(out@) == head + all.take(i as int).filter(keep).map_values(show),
            decreases self.ordered_chats.len() - i,
        {
            let ghost before = texts(out@);
            proof {
                reveal(Seq::filter);
                assert(all.take(i + 1).drop_last() =~= all.take(i as int));
                assert(all[i as int] == self.ordered_chats@[i as int]@);
            }
            if bare || contains(self.ordered_chats[i].key.as_str(), q.as_str()) {
                let line = concat("  ", self.ordered_chats[i].peer.label());
                out.push(line);
                assert(texts(out@) =~= before.push(line@));
                assert(all.take(i + 1).filter(keep) == all.take(i as int).filter(keep).push(
                    all[i as int],
                ));
                assert(all.take(i + 1).filter(keep).map_values(show) =~= all.take(i as int).filter(
                    keep,
                ).map_values(show).push(show(all[i as int])));
                assert(texts(out@) =~= head + all.take(i + 1).filter(keep).map_values(show));
            } else {
                assert(all.take(i + 1).filter(keep) == all.take(i as int).filter(keep));
            }
            i = i + 1;
        }
        assert(all.take(i as int) =~= all);
        let ghost before = texts(out@);
        out.push("-!- End of /list".to_owned());
        assert(texts(out@) =~= before.push("-!- End of /list"@));
        assert(texts(out@) =~= chat_list(all, query@));
        out
    }

    fn ask_names(&mut self, target: &str, ts: &str) -> (r: Action)
        requires
            old(self).wf(),
        ensures
            final(self).wf(),
            final(self)@ == old(self)@.asked_names(target@, ts@).app,
            r@ == old(self)@.asked_names(target@, ts@).action,
            in_range(r@, final(self)@.windows.len()),
    {
        let mut peer: Option<Peer> = None;
        let mut win: Option<usize> = None;
        if target.unicode_len() == 0 {
            if let Some(i) = self.active {
                assert(self@.windows[i as int] == self.windows@[i as int]@);
                peer = Some(self.windows[i].peer.clone());
                win = Some(i);
            }
        } else if let Some(p) = self.find_best_match(target) {
            win = position(&self.windows, p.id);
            peer = Some(p);
        }
        match peer {
            Some(peer) => {
                let note = wrapped("-!- Fetching names for ", peer.label(), "...");
                self.push_sys_at(ts, note.as_str());
                Action::FetchNames { peer, window: win }
            },
            None => {
                self.push_sys_at(ts, "-!- Cannot find chat for /names");
                Action::Done
            },
        }
    }

    fn tell_whois(&mut self, target: &str, ts: &str)
        requires
            old(self).wf(),
        ensures
            final(self).wf(),
            final(self)@ == old(self)@.told_whois(target@, ts@),
    {
        match self.find_best_match(target) {
            Some(peer) => {
                let mut s = "-!- WHOIS ".to_owned();
                s.append(peer.label());
                s.append(" (@");
                s.append(text_or(&peer.username, "none"));
                s.append(") ID:");
                let id = decimal_signed(peer.id);
                s.append(id.as_str());
                self.push_sys_at(ts, s.as_str());
            },
            None => {
                let s = concat("-!- No such nick: ", target);
                self.push_sys_at(ts, s.as_str());
            },
        }
    }

    fn open_chat(&mut self, kind: OpenKind, rest: &str, ts: &str) -> (r: Action)
        requires
            old(self).wf(),
            old(self)@.runnable(CommandView::Open { kind, rest: rest@ }),
        ensures
            final(self).wf(),
            final(self)@ == old(self)@.opened(kind, rest@, ts@).app,
            r@ == old(self)@.opened(kind, rest@, ts@).action,
            in_range(r@, final(self)@.windows.len()),
    {
        let key = match self.find_best_match_key(rest) {
            Some(k) => k,
            None => {
                self.push_sys_at(ts, "-!- No match. /search <n> first.");
                return Action::Done;
            },
        };
        proof {
            best_match_is_longest(self@.all_chats, lowercase(rest@));
        }
        let peer = match self.all_chats.get(key.as_str()) {
            Some(p) => p.clone(),
            None => {
                return Action::Done;
            },
        };
        let text = trimmed(tail_of(rest, byte_len(key.as_str())));
        let i = self.focus_window(&peer);
        self.select(i);
        assert(self@.windows[i as int] == self.windows@[i as int]@);
        let name = self.windows[i].name.clone();
        match kind {
            OpenKind::Trout => Action::Send {
                win: i,
                peer,
                text: wrapped(
                    "* slaps ",
                    name.as_str(),
                    " around a bit with a large trout *",
                ),
                kind: SendKind::Trout,
            },
            _ => {
                let message = match kind {
                    OpenKind::Message => text.unicode_len() > 0,
                    _ => false,
                };
                if message {
                    let note = concat("-!- Messaging: ", name.as_str());
                    self.push_sys_at(ts, note.as_str());
                    Action::LoadHistory {
                        win: i,
                        limit: HISTORY_LIMIT,
                        next: AfterHistory::Send { peer, text: text.to_owned() },
                    }
                } else {
                    let note = concat("-!- Joining: ", name.as_str());
                    self.push_sys_at(ts, note.as_str());
                    Action::LoadHistory { win: i, limit: HISTORY_LIMIT, next: AfterHistory::Save }
                }
            },
        }
    }
}

// ── Running a command ────────────────────────────────────────────────────────

/// The help text.
pub open spec fn help_lines() -> Seq<Seq<char>> {
    seq![
        "-!- Commands:"@,
        "    /search <query>         search contacts/chats"@,
        "    /list [query]           list cached dialogs"@,
        "    /names [chat]           list users in chat"@,
        "    /join <n>            open window  [Tab completes]"@,
        "    /msg <n> [text]      open & optionally send  [Tab completes]"@,
        "    /privmsg /query         aliases for /msg"@,
        "    /whois <n>           show user info  [Tab completes]"@,
        "    /me <action>            action in current window"@,
        "    /trout <n>           slap with a trout"@,
        "    /win [N]                list or switch windows (1=status)"@,
        "    /close [N]              close window"@,
        "    /reload                 re-fetch last 100 messages"@,
        "    /quit                   exit"@,
        "    Tab                     cycle name completions"@,
        "    Ctrl-C                  quit"@,
    ]
}

/// The help text.
pub fn help() -> (out: Vec<String>)
    ensures
        texts(out@) == help_lines(),
{
    let mut out: Vec<String> = Vec::new();
    out.push("-!- Commands:".to_owned());
    out.push("    /search <query>         search contacts/chats".to_owned());
    out.push("    /list [query]           list cached dialogs".to_owned());
    out.push("    /names [chat]           list users in chat".to_owned());
    out.push("    /join <n>            open window  [Tab completes]".to_owned());
    out.push("    /msg <n> [text]      open & optionally send  [Tab completes]".to_owned());
    out.push("    /privmsg /query         aliases for /msg".to_owned());
    out.push("    /whois <n>           show user info  [Tab completes]".to_owned());
    out.push("    /me <action>            action in current window".to_owned());
    out.push("    /trout <n>           slap with a trout".to_owned());
    out.push("    /win [N]                list or switch windows (1=status)".to_owned());
    out.push("    /close [N]              close window".to_owned());
    out.push("    /reload                 re-fetch last 100 messages".to_owned());
    out.push("    /quit                   exit".to_owned());
    out.push("    Tab                     cycle name completions".to_owned());
    out.push("    Ctrl-C                  quit".to_owned());
    assert(texts(out@) =~= help_lines());
    out
}

impl AppView {
    /// A message to the chat in front asked to be sent.
    pub open spec fn asked_send(self, text: Seq<char>, kind: SendKind) -> ActionView {
        match self.active {
            Some(i) => ActionView::Send { win: i, peer: self.windows[i as int].peer, text, kind },
            None => ActionView::Done,
        }
    }

    /// The window in front asked to be read in anew.
    pub open spec fn asked_reload(self, ts: Seq<char>) -> Step {
        match self.active {
            Some(i) => Step {
                app: self.with_sys(
                    ts,
                    "-!- Reloading "@ + self.windows[i as int].name + "..."@,
                ),
                action: read_in(i, AfterView::Reloaded),
            },
            None => Step {
                app: self.with_sys(ts, "-!- No active window."@),
                action: ActionView::Done,
            },
        }
    }

    /// A plain line said in the chat in front.
    pub open spec fn said(self, text: Seq<char>, ts: Seq<char>) -> Step {
        Step {
            app: if self.active is Some {
                self
            } else {
                self.with_sys(ts, "-!- No active window. /join <n> or /win 2"@)
            },
            action: self.asked_send(text, SendKind::Say),
        }
    }

    /// A command run.
    pub open spec fn ran(self, cmd: CommandView, ts: Seq<char>) -> Step {
        match cmd {
            CommandView::Nothing => Step { app: self, action: ActionView::Done },
            CommandView::Quit => Step { app: self, action: ActionView::Quit },
            CommandView::Switch { number } => self.switched(number, ts),
            CommandView::Windows => Step {
                app: self.with_sys_all(ts, self.window_list()),
                action: ActionView::Done,
            },
            CommandView::Close => self.close(self.active, ts),
            CommandView::CloseNumber { number } => self.close(Some(index_of_number(number)), ts),
            CommandView::List { query } => Step {
                app: self.with_sys_all(ts, chat_list(self.ordered_chats, query)),
                action: ActionView::Done,
            },
            CommandView::Names { target } => self.asked_names(target, ts),
            CommandView::Topic => Step {
                app: self.with_sys(
                    ts,
                    "-!- /topic is not supported for standard Telegram chats."@,
                ),
                action: ActionView::Done,
            },
            CommandView::Whois { target } => Step {
                app: self.told_whois(target, ts),
                action: ActionView::Done,
            },
            CommandView::Search { query } => Step {
                app: self.with_sys(ts, "-!- Searching '"@ + query + "'..."@),
                action: ActionView::Search { query },
            },
            CommandView::Open { kind, rest } => self.opened(kind, rest, ts),
            CommandView::Me { action } => Step {
                app: self,
                action: self.asked_send("* "@ + action + " *"@, SendKind::Me),
            },
            CommandView::Reload => self.asked_reload(ts),
            CommandView::Help => Step {
                app: self.with_sys_all(ts, help_lines()),
                action: ActionView::Done,
            },
            CommandView::Unknown { word } => Step {
                app: self.with_sys(ts, "-!- Unknown command: "@ + word + "  (try /help)"@),
                action: ActionView::Done,
            },
            CommandView::Say { text } => self.said(text, ts),
        }
    }
}

impl App {
    fn ask_send(&self, text: String, kind: SendKind) -> (r: Action)
        requires
            self.wf(),
        ensures
            r@ == self@.asked_send(text@, kind),
            in_range(r@, self@.windows.len()),
    {
        match self.active {
            Some(i) => {
                assert(self@.windows[i as int] == self.windows@[i as int]@);
                Action::Send { win: i, peer: self.windows[i].peer.clone(), text, kind }
            },
            None => Action::Done,
        }
    }

    fn ask_reload(&mut self, ts: &str) -> (r: Action)
        requires
            old(self).wf(),
        ensures
            final(self).wf(),
            final(self)@ == old(self)@.asked_reload(ts@).app,
            r@ == old(self)@.asked_reload(ts@).action,
            in_range(r@, final(self)@.windows.len()),
    {
        match self.active {
            Some(i) => {
                assert(self@.windows[i as int] == self.windows@[i as int]@);
                let note = wrapped("-!- Reloading ", self.windows[i].name.as_str(), "...");
                self.push_sys_at(ts, note.as_str());
                Action::LoadHistory { win: i, limit: HISTORY_LIMIT, next: AfterHistory::Reloaded }
            },
            None => {
                self.push_sys_at(ts, "-!- No active window.");
                Action::Done
            },
        }
    }

    /// Runs a command, with lines stamped `ts`.
    pub fn run_command(&mut self, cmd: Command, ts: &str) -> (r: Action)
        requires
            old(self).wf(),
            old(self)@.runnable(cmd@),
        ensures
            final(self).wf(),
            final(self)@ == old(self)@.ran(cmd@, ts@).app,
            r@ == old(self)@.ran(cmd@, ts@).action,
            in_range(r@, final(self)@.windows.len()),
    {
        match cmd {
            Command::Nothing => Action::Done,
            Command::Quit => Action::Quit,
            Command::Switch { number } => self.switch(number, ts),
            Command::Windows => {
                let lines = self.list_windows();
                self.push_all(ts, &lines);
                Action::Done
            },
            Command::Close => {
                let front = self.active;
                self.close_if_any(front, ts)
            },
            Command::CloseNumber { number } => {
                let i: usize = if number < 2 { 0 } else { number - 2 };
                self.close_if_any(Some(i), ts)
            },
            Command::List { query } => {
                let lines = self.list_matching(query.as_str());
                self.push_all(ts, &lines);
                Action::Done
            },
            Command::Names { target } => self.ask_names(target.as_str(), ts),
            Command::Topic => {
                self.push_sys_at(
                    ts,
                    "-!- /topic is not supported for standard Telegram chats.",
                );
                Action::Done
            },
            Command::Whois { target } => {
                self.tell_whois(target.as_str(), ts);
                Action::Done
            },
            Command::Search { query } => {
                let note = wrapped("-!- Searching '", query.as_str(), "'...");
                self.push_sys_at(ts, note.as_str());
                Action::Search { query }
            },
            Command::Open { kind, rest } => self.open_chat(kind, rest.as_str(), ts),
            Command::Me { action } => {
                let text = wrapped("* ", action.as_str(), " *");
                self.ask_send(text, SendKind::Me)
            },
            Command::Reload => self.ask_reload(ts),
            Command::Help => {
                let lines = help();
                self.push_all(ts, &lines);
                Action::Done
            },
            Command::Unknown { word } => {
                let note = wrapped("-!- Unknown command: ", word.as_str(), "  (try /help)");
                self.push_sys_at(ts, note.as_str());
                Action::Done
            },
            Command::Say { text } => {
                if self.active.is_none() {
                    self.push_sys_at(ts, "-!- No active window. /join <n> or /win 2");
                    return Action::Done;
                }
                self.ask_send(text, SendKind::Say)
            },
        }
    }

    /// Runs a command line that can be run, at the present time.
    pub fn handle_command(&mut self, line: &str) -> (r: Action)
        requires
            old(self).wf(),
            old(self)@.runnable(command_of(line@)),
        ensures
            final(self).wf(),
            in_range(r@, final(self)@.windows.len()),
            exists|ts: Seq<char>|
                is_clock(ts) && (Step { app: final(self)@, action: r@ }) == #[trigger] old(
                    self,
                )@.ran(command_of(line@), ts),
    {
        let ts = now();
        let cmd = parse_command(line);
        self.run_command(cmd, ts.as_str())
    }

    /// Whether a command line can be run.
    pub fn can_run(&self, line: &str) -> (r: bool)
        requires
            self.wf(),
        ensures
            r == self@.runnable(command_of(line@)),
    {
        match parse_command(line) {
            Command::Open { kind: _, rest } => match self.find_best_match_key(rest.as_str()) {
                Some(k) => rest.as_str().is_char_boundary(byte_len(k.as_str())),
                None => true,
            },
            _ => true,
        }
    }

    /// Runs a command line at the present time; `None`, and nothing is done, where
    /// it cannot be run.
    pub fn submit(&mut self, line: &str) -> (r: Option<Action>)
        requires
            old(self).wf(),
        ensures
            final(self).wf(),
            r is Some <==> old(self)@.runnable(command_of(line@)),
            match r {
                Some(a) => in_range(a@, final(self)@.windows.len()) && exists|ts: Seq<char>|
                    is_clock(ts) && (Step { app: final(self)@, action: a@ }) == #[trigger] old(
                        self,
                    )@.ran(command_of(line@), ts),
                None => final(self)@ == old(self)@,
            },
    {
        if self.can_run(line) {
            Some(self.handle_command(line))
        } else {
            None
        }
    }
}

} // verus!
