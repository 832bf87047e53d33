//! Remembering the open windows between sessions.
//!
//! The file holds `ACTIVE=n` where a chat window is in front, then one line
//! `id|name` for each window. The number decides which chat is meant; the name is
//! for chats whose number is not known. A line without a bar is a name alone.
use vstd::prelude::*;
use crate::action::{in_range, read_in, Action, ActionView, AfterHistory, AfterView, HISTORY_LIMIT};
use crate::app::{
    fresh_window, in_chat, lemma_first_window, window_of, windows_view, App, AppView, WindowView,
};
use crate::chats::chats_are_found_by_number;
use crate::peer::{Peer, PeerView};
use crate::text::{
    after_prefix, decimal, decimal_int, decimal_of, decimal_signed, entries, entries_of, first_at,
    has_prefix, i64_of, is_digit, is_white, lemma_decimal_reads_back, lemma_decimal_value,
    lemma_first_at_is, lemma_signed_reads_back, lemma_trim_end_concat, lower, lowercase, parse_i64,
    parse_usize, split_all, split_first, split_once, strip_prefix, strs, trim, trim_end, usize_of,
};

verus! {

// ── Saving ───────────────────────────────────────────────────────────────────

/// The line that remembers a window.
pub open spec fn window_entry(w: WindowView) -> Seq<char> {
    decimal_int(w.peer.id as int) + "|"@ + w.name
}

/// The line that remembers which window is in front.
pub open spec fn active_entry(i: usize) -> Seq<char> {
    "ACTIVE="@ + decimal_of(i as nat)
}

/// The lines that remember windows, each with its line break.
pub open spec fn window_lines(ws: Seq<WindowView>) -> Seq<char>
    decreases ws.len(),
{
    if ws.len() == 0 {
        Seq::empty()
    } else {
        window_entry(ws[0]) + "\n"@ + window_lines(ws.drop_first())
    }
}

impl AppView {
    /// The text that remembers the windows.
    pub open spec fn saved(self) -> Seq<char> {
        match self.active {
            Some(i) => active_entry(i) + "\n"@ + window_lines(self.windows),
            None => window_lines(self.windows),
        }
    }
}

impl App {
    /// The text that remembers the windows.
    pub fn save_windows(&self) -> (r: String)
        ensures
            r@ == self@.saved(),
    {
        let mut out = String::new();
        if let Some(i) = self.active {
            out.append("ACTIVE=");
            let n = decimal(i as u128);
            out.append(n.as_str());
            out.append("\n");
            assert(out@ =~= active_entry(i) + "\n"@);
        }
        let ghost head = out@;
        let ghost ws = windows_view(self.windows@);
        let mut i: usize = 0;
        assert(ws.skip(0) =~= ws);
        while i < self.windows.len()
            invariant
                i <= self.windows@.len(),
                ws == windows_view(self.windows@),
                head + window_lines(ws) =~= out@ + window_lines(ws.skip(i as int)),
            decreases self.windows.len() - i,
        {
            let ghost before = out@;
            let id = decimal_signed(self.windows[i].peer.id);
            out.append(id.as_str());
            out.append("|");
            out.append(self.windows[i].name.as_str());
            out.append("\n");
            proof {
                assert(ws[i as int] == self.windows@[i as int]@);
                assert(ws.skip(i as int).drop_first() =~= ws.skip(i + 1));
                assert(out@ =~= before + (window_entry(ws[i as int]) + "\n"@));
                assert(before + window_lines(ws.skip(i as int)) =~= out@ + window_lines(
                    ws.skip(i + 1),
                ));
            }
            i = i + 1;
        }
        assert(ws.skip(i as int) =~= Seq::empty());
        assert(out@ =~= head + window_lines(ws));
        assert(Seq::<char>::empty() + window_lines(ws) =~= window_lines(ws));
        out
    }
}

// ── Restoring ────────────────────────────────────────────────────────────────

impl AppView {
    /// The chat that is known under a name, without regard to case.
    pub open spec fn named(self, name: Seq<char>) -> Option<PeerView> {
        if self.all_chats.dom().contains(lowercase(name)) {
            Some(self.all_chats[lowercase(name)])
        } else {
            None
        }
    }

    /// The chat that a line remembers: the one with its number, or else the one
    /// under its name. A line without a bar is a name alone.
    pub open spec fn remembered(self, line: Seq<char>) -> Option<PeerView> {
        match split_first(line, '|') {
            Some((number, name)) => match i64_of(number) {
                Some(id) => match self.peer_of(id) {
                    Some(p) => Some(p),
                    None => self.named(name),
                },
                None => self.named(name),
            },
            None => self.named(line),
        }
    }
}

/// Where the reader of remembered windows stands.
#[verifier::ext_equal]
pub struct Restoring {
    pub app: AppView,
    pub active: Option<usize>,
    pub restored: nat,
}

/// One line of remembered windows read.
pub open spec fn restore_line(st: Restoring, line: Seq<char>) -> Restoring {
    match after_prefix(line, "ACTIVE="@) {
        Some(n) => Restoring { active: usize_of(n), ..st },
        None => match st.app.remembered(line) {
            Some(peer) => Restoring {
                app: st.app.focused(peer),
                restored: st.restored + 1,
                ..st
            },
            None => st,
        },
    }
}

/// All lines of remembered windows read.
pub open spec fn restore_lines(v: AppView, lines: Seq<Seq<char>>) -> Restoring
    decreases lines.len(),
{
    if lines.len() == 0 {
        Restoring { app: v, active: None, restored: 0 }
    } else {
        restore_line(restore_lines(v, lines.drop_last()), lines.last())
    }
}

impl AppView {
    /// The window that is in front after opening remembered windows.
    pub open spec fn restored_active(self, st: Restoring) -> usize {
        let want = match st.active {
            Some(i) => i,
            None => 0,
        };
        if want < st.app.windows.len() {
            want
        } else {
            (st.app.windows.len() - 1) as usize
        }
    }

    /// The state after opening the remembered windows.
    pub open spec fn restored(self, contents: Seq<char>) -> AppView {
        let st = restore_lines(self, entries_of(contents));
        if st.restored > 0 {
            AppView { active: Some(self.restored_active(st)), ..st.app }
        } else {
            st.app
        }
    }

    /// What is asked after opening the remembered windows: to read in the one in
    /// front.
    pub open spec fn restored_action(self, contents: Seq<char>) -> ActionView {
        let st = restore_lines(self, entries_of(contents));
        if st.restored > 0 {
            read_in(
                self.restored_active(st),
                AfterView::Restored { count: st.restored as usize },
            )
        } else {
            ActionView::Done
        }
    }
}

impl App {
    /// The chat that is known under a name, without regard to case.
    fn find_named(&self, name: &str) -> (r: Option<Peer>)
        requires
            self.wf(),
        ensures
            match r {
                Some(p) => self@.named(name@) == Some(p@),
                None => self@.named(name@) is None,
            },
    {
        let key = lower(name);
        match self.all_chats.get(key.as_str()) {
            Some(p) => Some(p.clone()),
            None => None,
        }
    }

    /// The chat that a line remembers: the one with its number, or else the one
    /// under its name.
    pub fn recall(&self, line: &str) -> (r: Option<Peer>)
        requires
            self.wf(),
        ensures
            match r {
                Some(p) => self@.remembered(line@) == Some(p@),
                None => self@.remembered(line@) is None,
            },
    {
        match split_once(line, '|') {
            Some((number, name)) => {
                if let Some(id) = parse_i64(number) {
                    if let Some(p) = self.find_peer(id) {
                        return Some(p);
                    }
                }
                self.find_named(name)
            },
            None => self.find_named(line),
        }
    }

    /// Opens the windows that the file remembers and puts the remembered one in
    /// front.
    pub fn restore_windows(&mut self, contents: &str) -> (r: Action)
        requires
            old(self).wf(),
        ensures
            final(self).wf(),
            final(self)@ == old(self)@.restored(contents@),
            r@ == old(self)@.restored_action(contents@),
            in_range(r@, final(self)@.windows.len()),
    {
        let ghost before = self@;
        let lines = entries(contents);
        let ghost all = entries_of(contents@);
        let mut active: Option<usize> = None;
        let mut restored: usize = 0;
        let mut i: usize = 0;
        while i < lines.len()
            invariant
                i <= lines@.len(),
                all == entries_of(contents@),
                strs(lines@) == all,
                restored <= i,
                self.wf(),
                restored > 0 ==> self@.windows.len() > 0,
                restore_lines(before, all.take(i as int)) == (Restoring {
                    app: self@,
                    active,
                    restored: restored as nat,
                }),
            decreases lines.len() - i,
        {
            let line = lines[i];
            proof {
                assert(strs(lines@)[i as int] == line@);
                assert(all.take(i + 1).drop_last() =~= all.take(i as int));
            }
            match strip_prefix(line, "ACTIVE=") {
                Some(n) => {
                    active = parse_usize(n);
                },
                None => {
                    if let Some(peer) = self.recall(line) {
                        let _ = self.focus_window(&peer);
                        restored = restored + 1;
                    }
                },
            }
            i = i + 1;
        }
        assert(all.take(i as int) =~= all);
        if restored > 0 {
            let n = self.windows.len();
            let want = match active {
                Some(a) => a,
                None => 0,
            };
            let ai = if want < n { want } else { n - 1 };
            let ghost prev = self@;
            self.active = Some(ai);
            assert(self@ =~= (AppView { active: Some(ai), ..prev }));
            Action::LoadHistory {
                win: ai,
                limit: HISTORY_LIMIT,
                next: AfterHistory::Restored { count: restored },
            }
        } else {
            Action::Done
        }
    }
}

// ── What is saved comes back ─────────────────────────────────────────────────

/// Whether a name can be remembered in one line: it holds no line break.
pub open spec fn rememberable(name: Seq<char>) -> bool {
    forall|i: int| 0 <= i < name.len() ==> #[trigger] name[i] != '\n'
}

/// Whether a line survives being written and read, but for white space at its end:
/// it is not empty, holds no line break and does not start with white space.
pub open spec fn is_entry(line: Seq<char>) -> bool {
    &&& line.len() > 0
    &&& forall|i: int| 0 <= i < line.len() ==> #[trigger] line[i] != '\n'
    &&& !is_white(line[0])
}

proof fn lemma_entries_empty()
    ensures
        entries_of(Seq::empty()) == Seq::<Seq<char>>::empty(),
{
    reveal_with_fuel(Seq::filter, 2);
    let e = Seq::<char>::empty();
    assert(first_at(e, '\n') == 0);
    assert(split_all(e, '\n') =~= seq![e]);
    assert(trim(e) =~= e);
    let m = split_all(e, '\n').map_values(|l: Seq<char>| trim(l));
    assert(m =~= seq![e]);
    assert(m.drop_last() =~= Seq::empty());
    assert(m.filter(|l: Seq<char>| l.len() > 0) =~= Seq::empty());
}

/// A line before others comes first among the lines read.
pub proof fn lemma_entries_cons(line: Seq<char>, rest: Seq<char>)
    requires
        is_entry(line),
    ensures
        entries_of(line + "\n"@ + rest) == seq![trim_end(line)] + entries_of(rest),
{
    reveal_strlit("\n");
    let t = line + "\n"@ + rest;
    let n = line.len() as int;
    let trims = |l: Seq<char>| trim(l);
    let full = |l: Seq<char>| l.len() > 0;
    assert(t[n] == '\n');
    assert forall|j: int| 0 <= j < n implies t[j] != '\n' by {
        assert(t[j] == line[j]);
    }
    lemma_first_at_is(t, '\n', n);
    assert(t.take(n) =~= line);
    assert(t.skip(n + 1) =~= rest);
    assert(split_all(t, '\n') == seq![line] + split_all(rest, '\n'));
    let kept = trim_end(line);
    assert(trim(line) == kept);
    lemma_trim_end_concat(line.take(1), line.skip(1));
    assert(line.take(1) + line.skip(1) =~= line);
    assert(kept.len() > 0);
    assert(split_all(t, '\n').map_values(trims) =~= seq![kept] + split_all(rest, '\n').map_values(
        trims,
    ));
    Seq::filter_distributes_over_add(seq![kept], split_all(rest, '\n').map_values(trims), full);
    reveal_with_fuel(Seq::filter, 2);
    assert(seq![kept].drop_last() =~= Seq::empty());
    assert(seq![kept].filter(full) =~= seq![kept]);
}

proof fn lemma_decimal_clean(n: int)
    ensures
        decimal_int(n).len() > 0,
        forall|i: int|
            0 <= i < decimal_int(n).len() ==> is_digit(#[trigger] decimal_int(n)[i])
                || decimal_int(n)[i] == '-',
{
    let m = if n < 0 {
        (-n) as nat
    } else {
        n as nat
    };
    lemma_decimal_value(m);
    assert forall|i: int| 0 <= i < decimal_int(n).len() implies is_digit(
        #[trigger] decimal_int(n)[i],
    ) || decimal_int(n)[i] == '-' by {
        if n < 0 {
            if i > 0 {
                assert(decimal_int(n)[i] == decimal_of(m)[i - 1]);
            }
        } else {
            assert(is_digit(decimal_of(m)[i]));
        }
    }
}

proof fn lemma_window_entry(w: WindowView)
    requires
        rememberable(w.name),
    ensures
        is_entry(window_entry(w)),
        after_prefix(trim_end(window_entry(w)), "ACTIVE="@) is None,
        split_first(trim_end(window_entry(w)), '|') == Some(
            (decimal_int(w.peer.id as int), trim_end(w.name)),
        ),
        i64_of(decimal_int(w.peer.id as int)) == Some(w.peer.id),
{
    reveal_strlit("|");
    reveal_strlit("ACTIVE=");
    let d = decimal_int(w.peer.id as int);
    let e = window_entry(w);
    lemma_decimal_clean(w.peer.id as int);
    lemma_signed_reads_back(w.peer.id);
    let n = d.len() as int;
    assert(e[n] == '|');
    assert forall|i: int| 0 <= i < e.len() implies #[trigger] e[i] != '\n' by {
        if i < n {
            assert(e[i] == d[i]);
        } else if i > n {
            assert(e[i] == w.name[i - n - 1]);
        }
    }
    assert(e[0] == d[0]);
    let head = d + "|"@;
    let kept = trim_end(e);
    lemma_trim_end_concat(head, w.name);
    assert(kept == head + trim_end(w.name));
    assert(kept[n] == '|');
    assert forall|j: int| 0 <= j < n implies kept[j] != '|' by {
        assert(kept[j] == d[j]);
    }
    lemma_first_at_is(kept, '|', n);
    assert(kept.take(n) =~= d);
    assert(kept.skip(n + 1) =~= trim_end(w.name));
    assert(kept[0] == d[0]);
    if has_prefix(kept, "ACTIVE="@) {
        assert(kept.take("ACTIVE="@.len() as int)[0] == kept[0]);
        assert("ACTIVE="@[0] == 'A');
    }
}

/// The line that remembers which window is in front reads back as its number.
pub proof fn lemma_active_entry(i: usize)
    ensures
        is_entry(active_entry(i)),
        trim_end(active_entry(i)) == active_entry(i),
        after_prefix(active_entry(i), "ACTIVE="@) == Some(decimal_of(i as nat)),
        usize_of(decimal_of(i as nat)) == Some(i),
{
    reveal_strlit("ACTIVE=");
    let d = decimal_of(i as nat);
    let e = active_entry(i);
    lemma_decimal_value(i as nat);
    lemma_decimal_reads_back(i);
    assert forall|k: int| 0 <= k < e.len() implies #[trigger] e[k] != '\n' by {
        if k >= 7 {
            assert(e[k] == d[k - 7]);
            assert(is_digit(d[k - 7]));
        }
    }
    assert(e.last() == d.last());
    assert(is_digit(d[d.len() - 1]));
    assert(e.take(7) =~= "ACTIVE="@);
    assert(e.skip(7) =~= d);
}

/// The lines that remember windows, as they are read.
pub open spec fn window_entries(ws: Seq<WindowView>) -> Seq<Seq<char>> {
    Seq::new(ws.len(), |i: int| trim_end(window_entry(ws[i])))
}

proof fn lemma_window_lines(ws: Seq<WindowView>)
    requires
        forall|i: int| 0 <= i < ws.len() ==> rememberable((#[trigger] ws[i]).name),
    ensures
        entries_of(window_lines(ws)) == window_entries(ws),
    decreases ws.len(),
{
    if ws.len() == 0 {
        lemma_entries_empty();
        assert(window_entries(ws) =~= Seq::empty());
    } else {
        let t = ws.drop_first();
        assert forall|i: int| 0 <= i < t.len() implies rememberable((#[trigger] t[i]).name) by {
            assert(t[i] == ws[i + 1]);
        }
        lemma_window_lines(t);
        lemma_window_entry(ws[0]);
        lemma_entries_cons(window_entry(ws[0]), window_lines(t));
        assert(seq![trim_end(window_entry(ws[0]))] + window_entries(t) =~= window_entries(ws));
    }
}

/// The windows that are opened for remembered ones: those of the chats with their
/// numbers, under the names by which these are known now.
pub open spec fn reopened(u: AppView, ws: Seq<WindowView>) -> Seq<WindowView> {
    Seq::new(
        ws.len(),
        |i: int|
            fresh_window(u.peer_of(ws[i].peer.id)->0, u.peer_of(ws[i].peer.id)->0.label()),
    )
}

/// Whether every window can be remembered, and its chat is known now.
pub open spec fn still_known(u: AppView, ws: Seq<WindowView>) -> bool {
    forall|i: int|
        0 <= i < ws.len() ==> rememberable((#[trigger] ws[i]).name) && u.peer_of(
            ws[i].peer.id,
        ) is Some
}

proof fn lemma_restore_windows(
    u: AppView,
    head: Seq<Seq<char>>,
    active: Option<usize>,
    ws: Seq<WindowView>,
    k: int,
)
    requires
        0 <= k <= ws.len() <= usize::MAX,
        u.wf(),
        u.windows.len() == 0,
        still_known(u, ws),
        forall|i: int, j: int|
            0 <= i < j < ws.len() ==> (#[trigger] ws[i]).peer.id != (#[trigger] ws[j]).peer.id,
        restore_lines(u, head) == (Restoring { app: u, active, restored: 0 }),
    ensures
        restore_lines(u, head + window_entries(ws).take(k)) == (Restoring {
            app: AppView { windows: reopened(u, ws).take(k), ..u },
            active,
            restored: k as nat,
        }),
    decreases k,
{
    let e = window_entries(ws);
    if k == 0 {
        assert(head + e.take(0) =~= head);
        assert(reopened(u, ws).take(0) =~= u.windows);
        assert((AppView { windows: reopened(u, ws).take(0), ..u }) =~= u);
    } else {
        lemma_restore_windows(u, head, active, ws, k - 1);
        let lines = head + e.take(k);
        assert(lines.drop_last() =~= head + e.take(k - 1));
        assert(lines.last() == trim_end(window_entry(ws[k - 1])));
        lemma_window_entry(ws[k - 1]);
        let st = restore_lines(u, head + e.take(k - 1));
        let peer = u.peer_of(ws[k - 1].peer.id)->0;
        chats_are_found_by_number(u, ws[k - 1].peer.id);
        assert(st.app.peer_of(ws[k - 1].peer.id) == Some(peer));
        let p = in_chat(peer.id);
        lemma_first_window(st.app.windows, p);
        if let Some(j) = window_of(st.app.windows, peer.id) {
            assert(st.app.windows[j as int] == reopened(u, ws)[j as int]);
            chats_are_found_by_number(u, ws[j as int].peer.id);
            assert(ws[j as int].peer.id != ws[k - 1].peer.id);
        }
        assert(st.app.focused(peer).windows =~= reopened(u, ws).take(k));
        assert(st.app.focused(peer) =~= (AppView { windows: reopened(u, ws).take(k), ..u }));
    }
}

/// Windows that are saved come back: from a client without windows that knows
/// their chats, under whatever names, restoring what was saved
/// opens a window for each of them, in the same order, and puts the same one in
/// front (the first one, where the status window was in front).
pub proof fn saved_windows_come_back(v: AppView, u: AppView)
    requires
        v.wf(),
        u.wf(),
        u.windows.len() == 0,
        still_known(u, v.windows),
    ensures
        u.restored(v.saved()).windows == reopened(u, v.windows),
        u.restored(v.saved()).windows.len() == v.windows.len(),
        forall|i: int|
            0 <= i < v.windows.len() ==> (#[trigger] u.restored(v.saved()).windows[i]).peer.id
                == v.windows[i].peer.id,
        v.windows.len() > 0 ==> {
            let front = match v.active {
                Some(i) => i,
                None => 0,
            };
            &&& u.restored(v.saved()).active == Some(front)
            &&& u.restored_action(v.saved()) == read_in(
                front,
                AfterView::Restored { count: v.windows.len() as usize },
            )
        },
        v.windows.len() == 0 ==> u.restored(v.saved()) == u && u.restored_action(v.saved())
            == ActionView::Done,
{
    let ws = v.windows;
    let e = window_entries(ws);
    let n = ws.len() as int;
    lemma_window_lines(ws);
    let head: Seq<Seq<char>> = match v.active {
        Some(i) => seq![active_entry(i)],
        None => Seq::empty(),
    };
    match v.active {
        Some(i) => {
            lemma_active_entry(i);
            lemma_entries_cons(active_entry(i), window_lines(ws));
            reveal_with_fuel(restore_lines, 2);
            assert(head.drop_last() =~= Seq::empty());
            assert(restore_lines(u, head) == (Restoring { app: u, active: Some(i), restored: 0 }));
        },
        None => {
            assert(head + e =~= e);
        },
    }
    assert(entries_of(v.saved()) == head + e);
    lemma_restore_windows(u, head, v.active, ws, n);
    assert(e.take(n) =~= e);
    assert(reopened(u, ws).take(n) =~= reopened(u, ws));
    let st = restore_lines(u, entries_of(v.saved()));
    assert(st.restored == n);
    if n == 0 {
        assert(st.app =~= u);
    }
    assert forall|i: int| 0 <= i < v.windows.len() implies (#[trigger] u.restored(
        v.saved(),
    ).windows[i]).peer.id == v.windows[i].peer.id by {
        chats_are_found_by_number(u, ws[i].peer.id);
    }
}

} // verus!
