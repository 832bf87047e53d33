//! The directory of chats, opening windows, and messages that come in.
use vstd::prelude::*;
use crate::app::{
    capped, chat_line, chat_line_at, entries_view, first_window, has_text, in_chat,
    lemma_first_window, listed, named_like, new_window, position, position_like, push_line,
    window_of, App, AppView, ChatEntry, ChatLine, EntryView, LineView, WindowActivity, WindowView,
};
use crate::peer::{best_match, best_match_is_longest, Peer, PeerView};
use crate::text::{lower, lowercase, opt_string, same, texts};

verus! {

/// How many chats are entered into the directory at the start.
pub const DIALOG_LIMIT: usize = 500;

/// One more, back to zero after the largest number.
pub open spec fn next_count(n: usize) -> usize {
    if n == usize::MAX {
        0
    } else {
        (n + 1) as usize
    }
}

/// The first chat of the directory with the number `id`, as it was known last, or
/// else as it was known first.
pub open spec fn peer_among(
    chats: Seq<EntryView>,
    latest: Map<Seq<char>, PeerView>,
    id: i64,
) -> Option<PeerView>
    decreases chats.len(),
{
    if chats.len() == 0 {
        None
    } else {
        match peer_among(chats.drop_last(), latest, id) {
            Some(p) => Some(p),
            None => {
                let e = chats.last();
                if latest[e.key].id == id {
                    Some(latest[e.key])
                } else if e.peer.id == id {
                    Some(e.peer)
                } else {
                    None
                }
            },
        }
    }
}

/// A chat that is found has the number looked for, and one is found wherever some
/// name leads to that number.
pub proof fn chats_are_found_by_number(v: AppView, id: i64)
    requires
        v.wf(),
    ensures
        v.peer_of(id) matches Some(p) ==> p.id == id,
        forall|k: Seq<char>| #[trigger]
            v.all_chats.dom().contains(k) && v.all_chats[k].id == id ==> v.peer_of(id) is Some,
        forall|i: int|
            0 <= i < v.ordered_chats.len() && (#[trigger] v.ordered_chats[i]).peer.id == id
                ==> v.peer_of(id) is Some,
{
    lemma_peer_among(v.ordered_chats, v.all_chats, id);
    assert forall|k: Seq<char>| #[trigger]
        v.all_chats.dom().contains(k) && v.all_chats[k].id == id implies v.peer_of(id) is Some by {
        assert(listed(v.ordered_chats, k));
        let i = choose|i: int|
            0 <= i < v.ordered_chats.len() && (#[trigger] v.ordered_chats[i]).key == k;
        assert(v.all_chats[v.ordered_chats[i].key].id == id);
    }
}

proof fn lemma_peer_among(chats: Seq<EntryView>, latest: Map<Seq<char>, PeerView>, id: i64)
    ensures
        match peer_among(chats, latest, id) {
            Some(p) => p.id == id,
            None => forall|i: int|
                0 <= i < chats.len() ==> (#[trigger] chats[i]).peer.id != id
                    && latest[chats[i].key].id != id,
        },
    decreases chats.len(),
{
    if chats.len() > 0 {
        let t = chats.drop_last();
        lemma_peer_among(t, latest, id);
        if peer_among(chats, latest, id) is None {
            assert forall|i: int| 0 <= i < chats.len() implies (#[trigger] chats[i]).peer.id != id
                && latest[chats[i].key].id != id by {
                if i < t.len() {
                    assert(t[i] == chats[i]);
                }
            }
        }
    }
}

proof fn lemma_peer_among_prefix(
    chats: Seq<EntryView>,
    latest: Map<Seq<char>, PeerView>,
    id: i64,
    k: int,
)
    requires
        0 <= k <= chats.len(),
    ensures
        peer_among(chats.take(k), latest, id) matches Some(p) ==> peer_among(chats, latest, id)
            == Some(p),
    decreases chats.len() - k,
{
    if k < chats.len() {
        assert(chats.take(k + 1).drop_last() =~= chats.take(k));
        lemma_peer_among_prefix(chats, latest, id, k + 1);
    } else {
        assert(chats.take(k) =~= chats);
    }
}

impl AppView {
    /// The chat with the number `id`, if the directory knows one.
    pub open spec fn peer_of(self, id: i64) -> Option<PeerView> {
        peer_among(self.ordered_chats, self.all_chats, id)
    }

    /// The peer that a text names: the one under the longest name, without regard
    /// to case, that the text starts with.
    pub open spec fn best_key(self, content: Seq<char>) -> Option<Seq<char>> {
        best_match(self.all_chats, lowercase(content))
    }

    /// The state with `nick` among the nicks of the window of the chat `id`.
    pub open spec fn with_nick(self, id: i64, nick: Seq<char>) -> AppView {
        match window_of(self.windows, id) {
            Some(i) => if self.windows[i as int].nicks.contains(nick) {
                self
            } else {
                self.with_window(
                    i as int,
                    WindowView {
                        nicks: self.windows[i as int].nicks.push(nick),
                        ..self.windows[i as int]
                    },
                )
            },
            None => self,
        }
    }

    /// The window that a message from `nick` in the chat `id` belongs to: that of
    /// the chat, or else the first whose name resembles the nick.
    pub open spec fn incoming_window(self, id: i64, nick: Seq<char>) -> Option<usize> {
        match window_of(self.windows, id) {
            Some(i) => Some(i),
            None => first_window(self.windows, named_like(nick)),
        }
    }

    /// The state with a message in window `i`: counted and marked unless the
    /// window is in front.
    pub open spec fn with_message(self, i: int, line: LineView, highlight: bool) -> AppView {
        let w = self.windows[i];
        let level = if highlight {
            WindowActivity::Highlight
        } else {
            WindowActivity::Text
        };
        let lines = capped(w.lines.push(line));
        if self.active == Some(i as usize) {
            self.with_window(i, WindowView { lines, ..w })
        } else {
            self.with_window(
                i,
                WindowView {
                    lines,
                    activity: w.activity.max(level),
                    unread: next_count(w.unread),
                    ..w
                },
            )
        }
    }

    /// The state after a message from `nick` in the chat `peer`.
    pub open spec fn with_incoming(
        self,
        peer: PeerView,
        ts: Seq<char>,
        nick: Seq<char>,
        text: Seq<char>,
        highlight: bool,
    ) -> AppView {
        let a = self.with_nick(peer.id, nick);
        let line = chat_line(ts, nick, text, highlight);
        match a.incoming_window(peer.id, nick) {
            Some(i) => a.with_message(i as int, line, highlight),
            None => a.with_peer(peer).with_new_window(peer, peer.label()).with_message(
                a.windows.len() as int,
                line,
                highlight,
            ),
        }
    }
}

/// Replacing a window by one of the same chat keeps the state well formed.
pub proof fn lemma_window_wf(v: AppView, i: int, w: WindowView)
    requires
        v.wf(),
        0 <= i < v.windows.len(),
        w.peer.id == v.windows[i].peer.id,
    ensures
        v.with_window(i, w).wf(),
{
    let r = v.with_window(i, w);
    assert forall|a: int, b: int| 0 <= a < b < r.windows.len() implies (
    #[trigger] r.windows[a]).peer.id != (#[trigger] r.windows[b]).peer.id by {
        assert(v.windows[a].peer.id != v.windows[b].peer.id);
    }
}

/// Entering a peer into the directory keeps the state well formed.
pub proof fn lemma_peer_wf(v: AppView, peer: PeerView)
    requires
        v.wf(),
    ensures
        v.with_peer(peer).wf(),
        forall|k: Seq<char>| #[trigger]
            v.with_peer(peer).all_chats.dom().contains(k) <==> v.all_chats.dom().contains(k) || k
                == peer.key(),
{
    let r = v.with_peer(peer);
    let key = peer.key();
    let old_chats = v.ordered_chats;
    let chats = r.ordered_chats;
    if !listed(old_chats, key) {
        assert(chats[old_chats.len() as int].key == key);
        assert forall|i: int| 0 <= i < old_chats.len() implies (#[trigger] chats[i]).key != key by {
            assert(old_chats[i].key != key);
        }
    }
    assert forall|k: Seq<char>| #[trigger] r.all_chats.dom().contains(k) <==> listed(chats, k) by {
        if listed(old_chats, k) {
            let i = choose|i: int| 0 <= i < old_chats.len() && (#[trigger] old_chats[i]).key == k;
            assert(chats[i].key == k);
        }
        if listed(chats, k) && k != key {
            let i = choose|i: int| 0 <= i < chats.len() && (#[trigger] chats[i]).key == k;
            assert(old_chats[i].key == k);
        }
        assert(v.all_chats.dom().contains(k) <==> listed(old_chats, k));
    }
    assert forall|k: Seq<char>| #[trigger] r.all_chats.dom().contains(k) implies r.all_chats[k].key()
        == k by {
        if k != key {
            assert(v.all_chats.dom().contains(k));
        }
    }
    assert forall|i: int| 0 <= i < chats.len() implies (#[trigger] chats[i]).key
        == chats[i].peer.key() by {
        if i < old_chats.len() {
            assert(old_chats[i].key == old_chats[i].peer.key());
        }
    }
    assert forall|i: int, j: int| 0 <= i < j < chats.len() implies (#[trigger] chats[i]).key != (
    #[trigger] chats[j]).key by {
        if j < old_chats.len() {
            assert(old_chats[i].key != old_chats[j].key);
        }
    }
}

/// A window for a chat that has none keeps the state well formed.
pub proof fn lemma_new_window_wf(v: AppView, peer: PeerView, name: Seq<char>)
    requires
        v.wf(),
        window_of(v.windows, peer.id) is None,
        v.windows.len() < usize::MAX,
    ensures
        v.with_new_window(peer, name).wf(),
{
    let r = v.with_new_window(peer, name);
    lemma_first_window(v.windows, in_chat(peer.id));
    assert forall|a: int, b: int| 0 <= a < b < r.windows.len() implies (
    #[trigger] r.windows[a]).peer.id != (#[trigger] r.windows[b]).peer.id by {
        let p = in_chat(peer.id);
        if b < v.windows.len() {
            assert(v.windows[a].peer.id != v.windows[b].peer.id);
        } else {
            assert(!p(v.windows[a]));
        }
    }
}

impl App {
    /// Enters a peer into the directory.
    pub fn add_peer(&mut self, peer: &Peer)
        requires
            old(self).wf(),
        ensures
            final(self).wf(),
            final(self)@ == old(self)@.with_peer(peer@),
    {
        let ghost before = self@;
        let lc = peer.key();
        let mut known = false;
        let mut i: usize = 0;
        while i < self.ordered_chats.len()
            invariant
                i <= self.ordered_chats@.len(),
                known ==> listed(entries_view(self.ordered_chats@), lc@),
                !known ==> forall|j: int|
                    0 <= j < i ==> (#[trigger] entries_view(self.ordered_chats@)[j]).key != lc@,
            decreases self.ordered_chats.len() - i,
        {
            if same(self.ordered_chats[i].key.as_str(), lc.as_str()) {
                assert(entries_view(self.ordered_chats@)[i as int].key == lc@);
                known = true;
            }
            i = i + 1;
        }
        self.all_chats.insert(lc.clone(), peer.clone());
        if !known {
            let ghost chats = self.ordered_chats@;
            self.ordered_chats.push(ChatEntry { key: lc, peer: peer.clone() });
            assert(entries_view(self.ordered_chats@) =~= before.with_peer(peer@).ordered_chats);
        }
        proof {
            assert(self@ =~= before.with_peer(peer@));
            lemma_peer_wf(before, peer@);
        }
    }

    /// Enters a chat found at the start; tells whether the directory now holds as
    /// many chats as are read then.
    pub fn cache_dialog(&mut self, peer: &Peer) -> (full: bool)
        requires
            old(self).wf(),
        ensures
            final(self).wf(),
            final(self)@ == old(self)@.with_peer(peer@),
            full == (final(self)@.ordered_chats.len() >= DIALOG_LIMIT),
    {
        self.add_peer(peer);
        self.ordered_chats.len() >= DIALOG_LIMIT
    }

    /// The longest known name, without regard to case, that `content` starts with.
    pub fn find_best_match_key(&self, content: &str) -> (r: Option<String>)
        requires
            self.wf(),
        ensures
            opt_string(r) == self@.best_key(content@),
    {
        let lc = lower(content);
        self.all_chats.find_longest(lc.as_str())
    }

    /// The peer under the longest known name that `content` starts with.
    pub fn find_best_match(&self, content: &str) -> (r: Option<Peer>)
        requires
            self.wf(),
        ensures
            match (r, self@.best_key(content@)) {
                (Some(p), Some(k)) => self@.all_chats.dom().contains(k) && p@ == self@.all_chats[k],
                (None, None) => true,
                _ => false,
            },
    {
        match self.find_best_match_key(content) {
            Some(k) => {
                proof {
                    best_match_is_longest(self@.all_chats, lowercase(content@));
                }
                match self.all_chats.get(k.as_str()) {
                    Some(p) => Some(p.clone()),
                    None => None,
                }
            },
            None => None,
        }
    }

    /// The chat with the number `id`, if the directory knows one.
    pub fn find_peer(&self, id: i64) -> (r: Option<Peer>)
        requires
            self.wf(),
        ensures
            match r {
                Some(p) => self@.peer_of(id) == Some(p@),
                None => self@.peer_of(id) is None,
            },
    {
        let ghost all = self@.ordered_chats;
        let mut i: usize = 0;
        while i < self.ordered_chats.len()
            invariant
                i <= self.ordered_chats@.len(),
                self.wf(),
                all == self@.ordered_chats,
                peer_among(all.take(i as int), self@.all_chats, id) is None,
            decreases self.ordered_chats.len() - i,
        {
            let e = &self.ordered_chats[i];
            proof {
                assert(all[i as int] == e@);
                assert(listed(all, e.key@));
                assert(all.take(i + 1).drop_last() =~= all.take(i as int));
                lemma_peer_among_prefix(all, self@.all_chats, id, i + 1);
            }
            if let Some(p) = self.all_chats.get(e.key.as_str()) {
                if p.id == id {
                    return Some(p.clone());
                }
            }
            if e.peer.id == id {
                return Some(e.peer.clone());
            }
            i = i + 1;
        }
        assert(all.take(i as int) =~= all);
        None
    }

    /// Opens a window named `name` for a chat that has none; returns its index.
    pub fn open_window(&mut self, peer: &Peer, name: &str) -> (i: usize)
        requires
            old(self).wf(),
            window_of(old(self)@.windows, peer@.id) is None,
        ensures
            final(self).wf(),
            final(self)@ == old(self)@.with_new_window(peer@, name@),
            i == old(self)@.windows.len(),
            i < final(self)@.windows.len(),
    {
        let ghost before = self@;
        let i = self.windows.len();
        self.windows.push(new_window(peer.clone(), name));
        proof {
            assert(self.windows.len() == i + 1);
            assert(self@.windows =~= before.with_new_window(peer@, name@).windows);
            assert(self@ =~= before.with_new_window(peer@, name@));
            lemma_new_window_wf(before, peer@, name@);
        }
        i
    }

    /// The index of the window of `peer`, which is opened if there is none.
    pub fn focus_window(&mut self, peer: &Peer) -> (i: usize)
        requires
            old(self).wf(),
        ensures
            final(self).wf(),
            final(self)@ == old(self)@.focused(peer@),
            i == old(self)@.focus_index(peer@),
            i < final(self)@.windows.len(),
            final(self)@.windows[i as int].peer.id == peer@.id,
    {
        match position(&self.windows, peer.id) {
            Some(i) => {
                assert(self@.windows[i as int] == self.windows@[i as int]@);
                i
            },
            None => self.open_window(peer, peer.label()),
        }
    }

    /// Enters `nick` among the nicks of the window of the chat `id`.
    fn note_nick(&mut self, id: i64, nick: &str)
        requires
            old(self).wf(),
        ensures
            final(self).wf(),
            final(self)@ == old(self)@.with_nick(id, nick@),
    {
        let ghost before = self@;
        if let Some(i) = position(&self.windows, id) {
            assert(self@.windows[i as int] == self.windows@[i as int]@);
            if !has_text(&self.windows[i].nicks, nick) {
                self.windows[i].nicks.push(nick.to_owned());
                proof {
                    let want = before.with_nick(id, nick@);
                    assert(texts(self.windows@[i as int].nicks@) =~= before.windows[i as int].nicks.push(
                        nick@,
                    ));
                    assert(self@.windows =~= want.windows) by {
                        assert forall|j: int| 0 <= j < want.windows.len() implies self@.windows[j]
                            == want.windows[j] by {
                            assert(self@.windows[j] =~= want.windows[j]);
                        }
                    }
                    assert(self@ =~= want);
                    lemma_window_wf(before, i as int, want.windows[i as int]);
                }
            }
        }
    }

    /// Adds a message to window `i`, counted and marked unless the window is in
    /// front.
    fn push_message(&mut self, i: usize, line: ChatLine, highlight: bool)
        requires
            old(self).wf(),
            i < old(self)@.windows.len(),
        ensures
            final(self).wf(),
            final(self)@ == old(self)@.with_message(i as int, line@, highlight),
    {
        let ghost before = self@;
        assert(before.windows[i as int] == self.windows@[i as int]@);
        let in_front = match self.active {
            Some(a) => a == i,
            None => false,
        };
        if !in_front {
            let level = if highlight {
                WindowActivity::Highlight
            } else {
                WindowActivity::Text
            };
            let seen = self.windows[i].activity;
            self.windows[i].activity = seen.raise(level);
            let count = self.windows[i].unread;
            self.windows[i].unread = count.wrapping_add(1);
        }
        push_line(&mut self.windows[i].lines, line);
        proof {
            let want = before.with_message(i as int, line@, highlight);
            assert(self@.windows =~= want.windows) by {
                assert forall|j: int| 0 <= j < want.windows.len() implies self@.windows[j]
                    == want.windows[j] by {
                    assert(self@.windows[j] =~= want.windows[j]);
                }
            }
            assert(self@ =~= want);
            lemma_window_wf(before, i as int, want.windows[i as int]);
        }
    }

    /// Takes in a message from `nick` in the chat `peer`: into the window of the
    /// chat, or into the first one whose name resembles the nick, or into a new one.
    pub fn push_incoming(
        &mut self,
        peer: &Peer,
        ts: &str,
        nick: &str,
        text: &str,
        highlight: bool,
    )
        requires
            old(self).wf(),
        ensures
            final(self).wf(),
            final(self)@ == old(self)@.with_incoming(peer@, ts@, nick@, text@, highlight),
    {
        self.note_nick(peer.id, nick);
        let line = chat_line_at(ts, nick, text, highlight);
        let found = match position(&self.windows, peer.id) {
            Some(i) => Some(i),
            None => position_like(&self.windows, nick),
        };
        let i = match found {
            Some(i) => i,
            None => {
                self.add_peer(peer);
                self.open_window(peer, peer.label())
            },
        };
        self.push_message(i, line, highlight);
    }
}

} // verus!
