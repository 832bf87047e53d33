//! The state of the client: windows, their scrollback, the directory of chats.
use std::collections::VecDeque;
use vstd::prelude::*;
use crate::clock::{is_clock, now};
use crate::peer::{ChatMap, Peer, PeerView};
use crate::text::{has_prefix, lower, lowercase, opt_string, same, starts_with, texts};
use crate::theme::{Theme, ThemeView};

verus! {

/// How many lines a scrollback keeps.
pub const SCROLLBACK: usize = 2000;

// ── Lines ────────────────────────────────────────────────────────────────────

/// One line of scrollback.
#[derive(Debug)]
pub struct ChatLine {
    pub ts: String,
    pub prefix: String,
    pub text: String,
    pub is_sys: bool,
    pub is_highlight: bool,
    pub nick: Option<String>,
    /// Whether the line was read in from the past of the chat.
    pub read_in: bool,
}

/// The model of a line.
#[verifier::ext_equal]
pub struct LineView {
    pub ts: Seq<char>,
    pub prefix: Seq<char>,
    pub text: Seq<char>,
    pub is_sys: bool,
    pub is_highlight: bool,
    pub nick: Option<Seq<char>>,
    pub read_in: bool,
}

impl View for ChatLine {
    type V = LineView;

    open spec fn view(&self) -> LineView {
        LineView {
            ts: self.ts@,
            prefix: self.prefix@,
            text: self.text@,
            is_sys: self.is_sys,
            is_highlight: self.is_highlight,
            nick: opt_string(self.nick),
            read_in: self.read_in,
        }
    }
}

/// The models of a row of lines.
pub open spec fn lines_view(s: Seq<ChatLine>) -> Seq<LineView> {
    Seq::new(s.len(), |i: int| s[i]@)
}

/// A message of the client itself.
pub open spec fn sys_line(ts: Seq<char>, text: Seq<char>) -> LineView {
    LineView {
        ts,
        prefix: "-!-"@,
        text,
        is_sys: true,
        is_highlight: false,
        nick: None,
        read_in: false,
    }
}

/// A message of a chat member.
pub open spec fn chat_line(
    ts: Seq<char>,
    nick: Seq<char>,
    text: Seq<char>,
    highlight: bool,
) -> LineView {
    LineView {
        ts,
        prefix: "<"@ + nick + ">"@,
        text,
        is_sys: false,
        is_highlight: highlight,
        nick: Some(nick),
        read_in: false,
    }
}

/// A message of the user.
pub open spec fn own_line(ts: Seq<char>, text: Seq<char>) -> LineView {
    LineView {
        ts,
        prefix: "<You>"@,
        text,
        is_sys: false,
        is_highlight: false,
        nick: Some("You"@),
        read_in: false,
    }
}

/// An action of the user.
pub open spec fn action_line(ts: Seq<char>, text: Seq<char>) -> LineView {
    LineView {
        ts,
        prefix: "***"@,
        text,
        is_sys: true,
        is_highlight: false,
        nick: None,
        read_in: false,
    }
}

/// The newest lines, as many as a scrollback keeps.
pub open spec fn capped(s: Seq<LineView>) -> Seq<LineView> {
    if s.len() > SCROLLBACK {
        s.skip(s.len() - SCROLLBACK)
    } else {
        s
    }
}

/// A message of the client itself, stamped `ts`.
pub fn sys_line_at(ts: &str, text: &str) -> (l: ChatLine)
    ensures
        l@ == sys_line(ts@, text@),
{
    ChatLine {
        ts: ts.to_owned(),
        prefix: "-!-".to_owned(),
        text: text.to_owned(),
        is_sys: true,
        is_highlight: false,
        nick: None,
        read_in: false,
    }
}

/// `nick` in angle brackets.
pub fn bracketed(nick: &str) -> (r: String)
    ensures
        r@ == "<"@ + nick@ + ">"@,
{
    let mut s = "<".to_owned();
    s.append(nick);
    s.append(">");
    s
}

/// A message of the chat member `nick`.
pub fn chat_line_at(ts: &str, nick: &str, text: &str, highlight: bool) -> (l: ChatLine)
    ensures
        l@ == chat_line(ts@, nick@, text@, highlight),
{
    ChatLine {
        ts: ts.to_owned(),
        prefix: bracketed(nick),
        text: text.to_owned(),
        is_sys: false,
        is_highlight: highlight,
        nick: Some(nick.to_owned()),
        read_in: false,
    }
}

/// A message of the user.
pub fn own_line_at(ts: &str, text: &str) -> (l: ChatLine)
    ensures
        l@ == own_line(ts@, text@),
{
    ChatLine {
        ts: ts.to_owned(),
        prefix: "<You>".to_owned(),
        text: text.to_owned(),
        is_sys: false,
        is_highlight: false,
        nick: Some("You".to_owned()),
        read_in: false,
    }
}

/// An action of the user.
pub fn action_line_at(ts: &str, text: &str) -> (l: ChatLine)
    ensures
        l@ == action_line(ts@, text@),
{
    ChatLine {
        ts: ts.to_owned(),
        prefix: "***".to_owned(),
        text: text.to_owned(),
        is_sys: true,
        is_highlight: false,
        nick: None,
        read_in: false,
    }
}

/// Adds a line to a scrollback and drops the oldest lines beyond its limit.
pub fn push_line(lines: &mut VecDeque<ChatLine>, line: ChatLine)
    ensures
        lines_view(final(lines)@) == capped(lines_view(old(lines)@).push(line@)),
        final(lines)@.len() <= SCROLLBACK,
{
    let ghost want = lines_view(lines@).push(line@);
    lines.push_back(line);
    assert(lines_view(lines@) == want);
    assert(want.skip(0) == want);
    while lines.len() > SCROLLBACK
        invariant
            lines@.len() <= want.len(),
            lines@.len() >= SCROLLBACK || lines@.len() == want.len(),
            lines_view(lines@) == want.skip(want.len() - lines@.len()),
        decreases lines@.len(),
    {
        let ghost before = lines@;
        let _ = lines.pop_front();
        assert(lines_view(lines@) == want.skip(want.len() - lines@.len())) by {
            assert forall|i: int| 0 <= i < lines@.len() implies lines_view(lines@)[i] == want.skip(
                want.len() - lines@.len(),
            )[i] by {
                assert(lines@[i] == before[i + 1]);
                assert(lines_view(before)[i + 1] == before[i + 1]@);
            }
        }
    }
}

/// Adding lines never takes a scrollback over its limit, and the newest line is
/// the last one.
pub proof fn scrollback_is_bounded(s: Seq<LineView>, l: LineView)
    ensures
        capped(s.push(l)).len() <= SCROLLBACK,
        capped(s.push(l)).last() == l,
        s.len() < SCROLLBACK ==> capped(s.push(l)) == s.push(l),
        s.len() >= SCROLLBACK ==> capped(s.push(l)) == s.skip(s.len() - SCROLLBACK + 1).push(l),
{
    if s.len() >= SCROLLBACK {
        assert(s.push(l).skip(s.len() + 1 - SCROLLBACK) == s.skip(s.len() - SCROLLBACK + 1).push(
            l,
        ));
    }
}

// ── Windows ──────────────────────────────────────────────────────────────────

/// What has happened in a window since it was last looked at.
#[derive(Clone, Copy, Debug, PartialEq, Eq, Structural)]
pub enum WindowActivity {
    Quiet,
    Text,
    Highlight,
}

impl WindowActivity {
    /// The rank of an activity.
    pub open spec fn level(self) -> int {
        match self {
            WindowActivity::Quiet => 0,
            WindowActivity::Text => 1,
            WindowActivity::Highlight => 2,
        }
    }

    /// The higher of two activities.
    pub open spec fn max(self, other: WindowActivity) -> WindowActivity {
        if other.level() > self.level() {
            other
        } else {
            self
        }
    }

    /// The higher of two activities.
    pub fn raise(self, other: WindowActivity) -> (r: WindowActivity)
        ensures
            r == self.max(other),
    {
        match (self, other) {
            (WindowActivity::Quiet, _) => other,
            (WindowActivity::Text, WindowActivity::Highlight) => other,
            _ => self,
        }
    }
}

/// A chat window.
#[derive(Debug)]
pub struct Window {
    pub peer: Peer,
    pub name: String,
    pub unread: usize,
    pub activity: WindowActivity,
    pub lines: VecDeque<ChatLine>,
    /// Known nicks in this chat, for completion after an at sign.
    pub nicks: Vec<String>,
}

/// The model of a window.
#[verifier::ext_equal]
pub struct WindowView {
    pub peer: PeerView,
    pub name: Seq<char>,
    pub unread: usize,
    pub activity: WindowActivity,
    pub lines: Seq<LineView>,
    pub nicks: Seq<Seq<char>>,
}

impl View for Window {
    type V = WindowView;

    open spec fn view(&self) -> WindowView {
        WindowView {
            peer: self.peer@,
            name: self.name@,
            unread: self.unread,
            activity: self.activity,
            lines: lines_view(self.lines@),
            nicks: texts(self.nicks@),
        }
    }
}

/// The models of a row of windows.
pub open spec fn windows_view(s: Seq<Window>) -> Seq<WindowView> {
    Seq::new(s.len(), |i: int| s[i]@)
}

/// Replacing one window replaces its model.
pub proof fn lemma_windows_update(a: Seq<Window>, b: Seq<Window>, i: int)
    requires
        0 <= i < a.len(),
        b =~= a.update(i, b[i]),
    ensures
        windows_view(b) == windows_view(a).update(i, b[i]@),
{
    assert(windows_view(b) =~= windows_view(a).update(i, b[i]@));
}

/// A window without lines.
pub open spec fn fresh_window(peer: PeerView, name: Seq<char>) -> WindowView {
    WindowView {
        peer,
        name,
        unread: 0,
        activity: WindowActivity::Quiet,
        lines: Seq::empty(),
        nicks: Seq::empty(),
    }
}

/// A window without lines.
pub fn new_window(peer: Peer, name: &str) -> (w: Window)
    ensures
        w@ == fresh_window(peer@, name@),
{
    let w = Window {
        peer,
        name: name.to_owned(),
        unread: 0,
        activity: WindowActivity::Quiet,
        lines: VecDeque::new(),
        nicks: Vec::new(),
    };
    assert(w@ =~= fresh_window(peer@, name@));
    w
}

/// The first window with a property.
pub open spec fn first_window(ws: Seq<WindowView>, p: spec_fn(WindowView) -> bool) -> Option<usize>
    decreases ws.len(),
{
    if ws.len() == 0 {
        None
    } else {
        match first_window(ws.drop_last(), p) {
            Some(i) => Some(i),
            None => if p(ws.last()) {
                Some((ws.len() - 1) as usize)
            } else {
                None
            },
        }
    }
}

/// Being a window of the chat `id`.
pub open spec fn in_chat(id: i64) -> spec_fn(WindowView) -> bool {
    |w: WindowView| w.peer.id == id
}

/// The window of the chat `id`.
pub open spec fn window_of(ws: Seq<WindowView>, id: i64) -> Option<usize> {
    first_window(ws, in_chat(id))
}

/// Whether a window's name resembles a nick: one starts with the other, without
/// regard to case.
pub open spec fn resembles(w: WindowView, nick: Seq<char>) -> bool {
    has_prefix(lowercase(w.name), lowercase(nick)) || has_prefix(lowercase(nick), lowercase(w.name))
}

/// Having a name that resembles a nick.
pub open spec fn named_like(nick: Seq<char>) -> spec_fn(WindowView) -> bool {
    |w: WindowView| resembles(w, nick)
}

/// `first_window` is the first index with the property.
pub proof fn lemma_first_window(ws: Seq<WindowView>, p: spec_fn(WindowView) -> bool)
    requires
        ws.len() <= usize::MAX,
    ensures
        match first_window(ws, p) {
            Some(i) => i < ws.len() && p(ws[i as int]) && forall|j: int|
                0 <= j < i ==> !p(#[trigger] ws[j]),
            None => forall|j: int| 0 <= j < ws.len() ==> !p(#[trigger] ws[j]),
        },
    decreases ws.len(),
{
    if ws.len() > 0 {
        let t = ws.drop_last();
        lemma_first_window(t, p);
        match first_window(t, p) {
            Some(i) => {
                assert(t[i as int] == ws[i as int]);
                assert forall|j: int| 0 <= j < i implies !p(#[trigger] ws[j]) by {
                    assert(t[j] == ws[j]);
                }
            },
            None => {
                assert forall|j: int| 0 <= j < ws.len() - 1 implies !p(#[trigger] ws[j]) by {
                    assert(t[j] == ws[j]);
                }
            },
        }
    }
}

/// An index with the property and none before it is `first_window`.
pub proof fn lemma_first_window_is(
    ws: Seq<WindowView>,
    p: spec_fn(WindowView) -> bool,
    r: Option<usize>,
)
    requires
        ws.len() <= usize::MAX,
        match r {
            Some(i) => i < ws.len() && p(ws[i as int]) && forall|j: int|
                0 <= j < i ==> !p(#[trigger] ws[j]),
            None => forall|j: int| 0 <= j < ws.len() ==> !p(#[trigger] ws[j]),
        },
    ensures
        first_window(ws, p) == r,
{
    lemma_first_window(ws, p);
    match (first_window(ws, p), r) {
        (Some(a), Some(b)) => {
            if a < b {
                assert(!p(ws[a as int]));
            } else if b < a {
                assert(!p(ws[b as int]));
            }
        },
        (Some(a), None) => {
            assert(!p(ws[a as int]));
        },
        (None, Some(b)) => {
            assert(!p(ws[b as int]));
        },
        (None, None) => {},
    }
}

/// The window of the chat `id`.
pub fn position(ws: &Vec<Window>, id: i64) -> (r: Option<usize>)
    ensures
        r == window_of(windows_view(ws@), id),
        r matches Some(i) ==> i < ws@.len() && ws@[i as int].peer.id == id,
{
    let mut i: usize = 0;
    while i < ws.len()
        invariant
            i <= ws@.len(),
            forall|j: int| 0 <= j < i ==> (#[trigger] windows_view(ws@)[j]).peer.id != id,
        decreases ws.len() - i,
    {
        if ws[i].peer.id == id {
            proof {
                lemma_first_window_is(windows_view(ws@), in_chat(id), Some(i));
            }
            return Some(i);
        }
        i = i + 1;
    }
    proof {
        lemma_first_window_is(windows_view(ws@), in_chat(id), None);
    }
    None
}

/// The first window whose name resembles a nick.
pub fn position_like(ws: &Vec<Window>, nick: &str) -> (r: Option<usize>)
    ensures
        r == first_window(windows_view(ws@), named_like(nick@)),
        r matches Some(i) ==> i < ws@.len(),
{
    let nick_lc = lower(nick);
    let mut i: usize = 0;
    while i < ws.len()
        invariant
            i <= ws@.len(),
            nick_lc@ == lowercase(nick@),
            forall|j: int| 0 <= j < i ==> !resembles(#[trigger] windows_view(ws@)[j], nick@),
        decreases ws.len() - i,
    {
        let wn = lower(ws[i].name.as_str());
        assert(windows_view(ws@)[i as int].name == ws@[i as int].name@);
        if starts_with(wn.as_str(), nick_lc.as_str()) || starts_with(
            nick_lc.as_str(),
            wn.as_str(),
        ) {
            proof {
                lemma_first_window_is(windows_view(ws@), named_like(nick@), Some(i));
            }
            return Some(i);
        }
        i = i + 1;
    }
    proof {
        lemma_first_window_is(windows_view(ws@), named_like(nick@), None);
    }
    None
}

/// Whether `s` is among the texts.
pub fn has_text(v: &Vec<String>, s: &str) -> (r: bool)
    ensures
        r == texts(v@).contains(s@),
{
    let mut i: usize = 0;
    while i < v.len()
        invariant
            i <= v@.len(),
            forall|j: int| 0 <= j < i ==> #[trigger] texts(v@)[j] != s@,
        decreases v.len() - i,
    {
        if same(v[i].as_str(), s) {
            assert(texts(v@)[i as int] == s@);
            return true;
        }
        i = i + 1;
    }
    false
}

// ── The client ───────────────────────────────────────────────────────────────

/// A completion in progress.
#[derive(Debug)]
pub struct TabState {
    pub candidates: Vec<String>,
    pub idx: usize,
    pub cmd_prefix: String,
    pub word_start: String,
}

/// The model of a completion in progress.
#[verifier::ext_equal]
pub struct TabView {
    pub candidates: Seq<Seq<char>>,
    pub idx: usize,
    pub cmd_prefix: Seq<char>,
    pub word_start: Seq<char>,
}

impl View for TabState {
    type V = TabView;

    open spec fn view(&self) -> TabView {
        TabView {
            candidates: texts(self.candidates@),
            idx: self.idx,
            cmd_prefix: self.cmd_prefix@,
            word_start: self.word_start@,
        }
    }
}

/// A chat of the directory, with the lower-case name it was first seen under.
#[derive(Debug)]
pub struct ChatEntry {
    pub key: String,
    pub peer: Peer,
}

/// The model of a chat of the directory.
#[verifier::ext_equal]
pub struct EntryView {
    pub key: Seq<char>,
    pub peer: PeerView,
}

impl View for ChatEntry {
    type V = EntryView;

    open spec fn view(&self) -> EntryView {
        EntryView { key: self.key@, peer: self.peer@ }
    }
}

/// The models of a row of chats.
pub open spec fn entries_view(s: Seq<ChatEntry>) -> Seq<EntryView> {
    Seq::new(s.len(), |i: int| s[i]@)
}

/// The state of the client.
#[derive(Debug)]
pub struct App {
    pub windows: Vec<Window>,
    /// The window in front; `None` is the status window.
    pub active: Option<usize>,
    pub input: String,
    pub status_lines: VecDeque<ChatLine>,
    /// The latest peer known under each lower-case name.
    pub all_chats: ChatMap,
    /// The names in the order in which they became known, each with the first
    /// peer known under it.
    pub ordered_chats: Vec<ChatEntry>,
    pub tab: Option<TabState>,
    pub theme: Theme,
}

/// The model of the state.
#[verifier::ext_equal]
pub struct AppView {
    pub windows: Seq<WindowView>,
    pub active: Option<usize>,
    pub input: Seq<char>,
    pub status_lines: Seq<LineView>,
    pub all_chats: Map<Seq<char>, PeerView>,
    pub ordered_chats: Seq<EntryView>,
    pub tab: Option<TabView>,
    pub theme: ThemeView,
}

/// The model of an optional completion.
pub open spec fn opt_tab(t: Option<TabState>) -> Option<TabView> {
    match t {
        Some(t) => Some(t@),
        None => None,
    }
}

impl View for App {
    type V = AppView;

    open spec fn view(&self) -> AppView {
        AppView {
            windows: windows_view(self.windows@),
            active: self.active,
            input: self.input@,
            status_lines: lines_view(self.status_lines@),
            all_chats: self.all_chats@,
            ordered_chats: entries_view(self.ordered_chats@),
            tab: opt_tab(self.tab),
            theme: self.theme@,
        }
    }
}

/// Whether some chat of the directory has the lower-case name `k`.
pub open spec fn listed(chats: Seq<EntryView>, k: Seq<char>) -> bool {
    exists|i: int| 0 <= i < chats.len() && (#[trigger] chats[i]).key == k
}

impl AppView {
    /// The window in front exists.
    pub open spec fn active_exists(self) -> bool {
        self.active matches Some(i) ==> i < self.windows.len()
    }

    /// No chat has two windows.
    pub open spec fn one_window_per_chat(self) -> bool {
        forall|i: int, j: int|
            0 <= i < j < self.windows.len() ==> (#[trigger] self.windows[i]).peer.id != (
            #[trigger] self.windows[j]).peer.id
    }

    /// The directory lists every name once, under the name of its peer, and the
    /// two ways to look at it know the same names.
    pub open spec fn directory_wf(self) -> bool {
        &&& forall|i: int, j: int|
            0 <= i < j < self.ordered_chats.len() ==> (#[trigger] self.ordered_chats[i]).key != (
            #[trigger] self.ordered_chats[j]).key
        &&& forall|i: int|
            0 <= i < self.ordered_chats.len() ==> (#[trigger] self.ordered_chats[i]).key
                == self.ordered_chats[i].peer.key()
        &&& forall|k: Seq<char>| #[trigger]
            self.all_chats.dom().contains(k) <==> listed(self.ordered_chats, k)
        &&& forall|k: Seq<char>| #[trigger]
            self.all_chats.dom().contains(k) ==> self.all_chats[k].key() == k
    }

    /// A completion in progress points at one of its candidates.
    pub open spec fn tab_wf(self) -> bool {
        self.tab matches Some(t) ==> t.idx < t.candidates.len()
    }

    /// What holds of every state of the client.
    pub open spec fn wf(self) -> bool {
        &&& self.active_exists()
        &&& self.one_window_per_chat()
        &&& self.directory_wf()
        &&& self.tab_wf()
        &&& self.status_lines.len() <= SCROLLBACK
        &&& self.windows.len() <= usize::MAX
    }

    /// The state with window `i` replaced.
    pub open spec fn with_window(self, i: int, w: WindowView) -> AppView {
        AppView { windows: self.windows.update(i, w), ..self }
    }

    /// The state with a line added to window `i`, over the limit if need be.
    pub open spec fn with_line(self, i: int, l: LineView) -> AppView {
        self.with_window(
            i,
            WindowView { lines: self.windows[i].lines.push(l), ..self.windows[i] },
        )
    }

    /// The state with a line added to window `i`, within the limit.
    pub open spec fn with_capped_line(self, i: int, l: LineView) -> AppView {
        self.with_window(
            i,
            WindowView { lines: capped(self.windows[i].lines.push(l)), ..self.windows[i] },
        )
    }

    /// The state with a line added to the status window.
    pub open spec fn with_status_line(self, l: LineView) -> AppView {
        AppView { status_lines: capped(self.status_lines.push(l)), ..self }
    }

    /// The state with a client message in the window in front.
    pub open spec fn with_sys(self, ts: Seq<char>, text: Seq<char>) -> AppView {
        match self.active {
            Some(i) => self.with_capped_line(i as int, sys_line(ts, text)),
            None => self.with_status_line(sys_line(ts, text)),
        }
    }

    /// The state with client messages in the window in front.
    pub open spec fn with_sys_all(self, ts: Seq<char>, msgs: Seq<Seq<char>>) -> AppView
        decreases msgs.len(),
    {
        if msgs.len() == 0 {
            self
        } else {
            self.with_sys_all(ts, msgs.drop_last()).with_sys(ts, msgs.last())
        }
    }

    /// The state with a client message in the status window.
    pub open spec fn with_status(self, ts: Seq<char>, text: Seq<char>) -> AppView {
        self.with_status_line(sys_line(ts, text))
    }

    /// The state with a peer entered into the directory.
    pub open spec fn with_peer(self, peer: PeerView) -> AppView {
        AppView {
            all_chats: self.all_chats.insert(peer.key(), peer),
            ordered_chats: if listed(self.ordered_chats, peer.key()) {
                self.ordered_chats
            } else {
                self.ordered_chats.push(EntryView { key: peer.key(), peer })
            },
            ..self
        }
    }

    /// The state with a further window.
    pub open spec fn with_new_window(self, peer: PeerView, name: Seq<char>) -> AppView {
        AppView { windows: self.windows.push(fresh_window(peer, name)), ..self }
    }

    /// The index of the window of `peer` once there is one.
    pub open spec fn focus_index(self, peer: PeerView) -> usize {
        match window_of(self.windows, peer.id) {
            Some(i) => i,
            None => self.windows.len() as usize,
        }
    }

    /// The state with a window for `peer`.
    pub open spec fn focused(self, peer: PeerView) -> AppView {
        match window_of(self.windows, peer.id) {
            Some(_) => self,
            None => self.with_new_window(peer, peer.label()),
        }
    }

    /// The name of the window in front.
    pub open spec fn active_name(self) -> Seq<char> {
        match self.active {
            Some(i) => self.windows[i as int].name,
            None => "(status)"@,
        }
    }
}

impl App {
    /// What holds of every state of the client.
    pub open spec fn wf(self) -> bool {
        self@.wf() && self.all_chats.wf()
    }

    /// A client without windows, in front of the status window.
    pub fn new(theme: Theme) -> (r: App)
        ensures
            r.wf(),
            r@ == (AppView {
                windows: Seq::empty(),
                active: None,
                input: Seq::empty(),
                status_lines: Seq::empty(),
                all_chats: Map::empty(),
                ordered_chats: Seq::empty(),
                tab: None,
                theme: theme@,
            }),
    {
        let r = App {
            windows: Vec::new(),
            active: None,
            input: String::new(),
            status_lines: VecDeque::new(),
            all_chats: ChatMap::new(),
            ordered_chats: Vec::new(),
            tab: None,
            theme,
        };
        assert(r@.windows =~= Seq::empty());
        assert(r@.status_lines =~= Seq::empty());
        assert(r@.ordered_chats =~= Seq::empty());
        r
    }

    /// The name of the window in front.
    pub fn active_name(&self) -> (r: &str)
        requires
            self.wf(),
        ensures
            r@ == self@.active_name(),
    {
        match self.active {
            Some(i) => {
                assert(self@.windows[i as int] == self.windows@[i as int]@);
                self.windows[i].name.as_str()
            },
            None => "(status)",
        }
    }

    /// A client message, stamped with the present time.
    pub fn make_sys_line(text: &str) -> (l: ChatLine)
        ensures
            exists|ts: Seq<char>| is_clock(ts) && l@ == #[trigger] sys_line(ts, text@),
    {
        let ts = now();
        sys_line_at(ts.as_str(), text)
    }

    /// Adds a line to the status window.
    fn push_status_line(&mut self, line: ChatLine)
        requires
            old(self).wf(),
        ensures
            final(self).wf(),
            final(self)@ == old(self)@.with_status_line(line@),
    {
        let ghost before = self@;
        push_line(&mut self.status_lines, line);
        assert(self@ =~= before.with_status_line(line@));
    }

    /// Adds a client message to the status window, stamped `ts`.
    pub fn push_status_at(&mut self, ts: &str, text: &str)
        requires
            old(self).wf(),
        ensures
            final(self).wf(),
            final(self)@ == old(self)@.with_status(ts@, text@),
    {
        self.push_status_line(sys_line_at(ts, text));
    }

    /// Adds a client message to the status window, stamped with the present time.
    pub fn push_status_sys(&mut self, text: &str)
        requires
            old(self).wf(),
        ensures
            final(self).wf(),
            exists|ts: Seq<char>|
                is_clock(ts) && final(self)@ == #[trigger] old(self)@.with_status(ts, text@),
    {
        let ts = now();
        self.push_status_at(ts.as_str(), text);
    }

    /// Adds a line to window `i`, within the limit.
    pub fn push_window_line(&mut self, i: usize, line: ChatLine)
        requires
            old(self).wf(),
            i < old(self)@.windows.len(),
        ensures
            final(self).wf(),
            final(self)@ == old(self)@.with_capped_line(i as int, line@),
    {
        let ghost before = self@;
        push_line(&mut self.windows[i].lines, line);
        proof {
            let want = before.with_capped_line(i as int, line@);
            assert(self@.windows =~= want.windows) by {
                assert forall|j: int| 0 <= j < want.windows.len() implies self@.windows[j]
                    == want.windows[j] by {
                    assert(before.windows[j] =~= self@.windows[j] || j == i);
                    assert(self@.windows[j] =~= want.windows[j]);
                }
            }
            assert(self@ =~= want);
        }
    }

    /// Adds a client message to the window in front, stamped `ts`.
    pub fn push_sys_at(&mut self, ts: &str, text: &str)
        requires
            old(self).wf(),
        ensures
            final(self).wf(),
            final(self)@ == old(self)@.with_sys(ts@, text@),
    {
        let line = sys_line_at(ts, text);
        match self.active {
            Some(i) => {
                self.push_window_line(i, line);
            },
            None => {
                self.push_status_line(line);
            },
        }
    }

    /// Adds a client message to the window in front, stamped with the present time.
    pub fn push_sys(&mut self, text: &str)
        requires
            old(self).wf(),
        ensures
            final(self).wf(),
            exists|ts: Seq<char>|
                is_clock(ts) && final(self)@ == #[trigger] old(self)@.with_sys(ts, text@),
    {
        let ts = now();
        self.push_sys_at(ts.as_str(), text);
    }
}

} // verus!
