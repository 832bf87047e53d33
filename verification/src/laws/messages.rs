//! What is promised of messages: which window shows them, and how.
use vstd::prelude::*;
use crate::action::{ActionView, AfterView};
use crate::app::{
    capped, in_chat, lemma_first_window_is, named_like, scrollback_is_bounded, AppView, EntryView,
    LineView, WindowActivity, WindowView,
};
use crate::event::NewMessageView;
use crate::history::{link_path, media_label, refreshed, with_senders, MediaView, MessageView};
use crate::peer::PeerView;
use crate::text::{decimal_int, has_prefix, lemma_not_prefix, lowercase};

verus! {

// ── Vocabulary ───────────────────────────────────────────────────────────────

/// The line of a message of somebody else that is heard.
pub open spec fn heard(
    ts: Seq<char>,
    nick: Seq<char>,
    text: Seq<char>,
    mentioned: bool,
    past: bool,
) -> LineView {
    LineView {
        ts,
        prefix: "<"@ + nick + ">"@,
        text,
        is_sys: false,
        is_highlight: mentioned,
        nick: Some(nick),
        read_in: past,
    }
}

/// The line of a message of the user.
pub open spec fn spoken(ts: Seq<char>, text: Seq<char>, past: bool) -> LineView {
    LineView {
        ts,
        prefix: "<You>"@,
        text,
        is_sys: false,
        is_highlight: false,
        nick: Some("You"@),
        read_in: past,
    }
}

/// A scrollback with a line more; the oldest lines give way beyond the limit.
pub open spec fn with_one_more(lines: Seq<LineView>, l: LineView) -> Seq<LineView> {
    if lines.len() < 2000 {
        lines.push(l)
    } else {
        lines.skip(lines.len() - 1999).push(l)
    }
}

/// Nicks with one among them that may have been missing.
pub open spec fn with_one_of(nicks: Seq<Seq<char>>, nick: Seq<char>) -> Seq<Seq<char>> {
    if nicks.contains(nick) {
        nicks
    } else {
        nicks.push(nick)
    }
}

/// Whether of two names one starts with the other, without regard to case.
pub open spec fn alike(a: Seq<char>, b: Seq<char>) -> bool {
    lowercase(a).is_prefix_of(lowercase(b)) || lowercase(b).is_prefix_of(lowercase(a))
}

/// A window with a message of somebody else: unless it is in front, the message is
/// counted, and the mark raised to what it calls for.
pub open spec fn noticed(
    w: WindowView,
    l: LineView,
    mentioned: bool,
    in_front: bool,
) -> WindowView {
    WindowView {
        lines: with_one_more(w.lines, l),
        unread: if in_front {
            w.unread
        } else if w.unread == usize::MAX {
            0
        } else {
            (w.unread + 1) as usize
        },
        activity: if in_front {
            w.activity
        } else if mentioned || w.activity == WindowActivity::Highlight {
            WindowActivity::Highlight
        } else {
            WindowActivity::Text
        },
        ..w
    }
}

/// What a message shows: the label of its attachment where it has one, and behind
/// it, after a space, its text where it has text.
pub open spec fn says(m: MessageView) -> Seq<char> {
    match m.media {
        Some(media) => if m.text.len() > 0 {
            media_label(media) + " "@ + m.text
        } else {
            media_label(media)
        },
        None => m.text,
    }
}

/// Whether a message has neither text nor an attachment.
pub open spec fn is_blank(m: MessageView) -> bool {
    m.media is None && m.text.len() == 0
}

/// Who a message is from.
pub open spec fn author(m: MessageView) -> Seq<char> {
    match m.sender {
        Some(name) => name,
        None => "Unknown"@,
    }
}

// ── Messages that come in ────────────────────────────────────────────────────

proof fn lemma_one_more(lines: Seq<LineView>, l: LineView)
    ensures
        capped(lines.push(l)) == with_one_more(lines, l),
{
    scrollback_is_bounded(lines, l);
}

/// A message of a chat that has a window is the last line of that window, whatever
/// the windows are called and whoever sent it; its sender is then among the nicks of
/// the window. No other window changes, and nothing else does.
pub proof fn messages_stay_in_their_chat(
    v: AppView,
    i: int,
    peer: PeerView,
    ts: Seq<char>,
    nick: Seq<char>,
    text: Seq<char>,
    mentioned: bool,
)
    requires
        v.wf(),
        0 <= i < v.windows.len(),
        v.windows[i].peer.id == peer.id,
    ensures
        ({
            let after = v.with_incoming(peer, ts, nick, text, mentioned);
            let line = heard(ts, nick, text, mentioned, false);
            let w = WindowView {
                nicks: with_one_of(v.windows[i].nicks, nick),
                ..v.windows[i]
            };
            &&& after.windows[i].lines.last() == line
            &&& after.windows[i].nicks.contains(nick)
            &&& after.windows.len() == v.windows.len()
            &&& forall|j: int|
                0 <= j < v.windows.len() && j != i ==> #[trigger] after.windows[j] == v.windows[j]
            &&& after == (AppView {
                windows: v.windows.update(
                    i,
                    noticed(w, line, mentioned, v.active == Some(i as usize)),
                ),
                ..v
            })
        }),
{
    let a = v.with_nick(peer.id, nick);
    let line = heard(ts, nick, text, mentioned, false);
    let p = in_chat(peer.id);
    assert forall|j: int| 0 <= j < i implies !p(#[trigger] v.windows[j]) by {
        assert(v.windows[j].peer.id != v.windows[i].peer.id);
    }
    lemma_first_window_is(v.windows, p, Some(i as usize));
    assert forall|j: int| 0 <= j < v.windows.len() implies p(#[trigger] a.windows[j]) == p(
        v.windows[j],
    ) by {}
    lemma_first_window_is(a.windows, p, Some(i as usize));
    lemma_one_more(v.windows[i].lines, line);
    scrollback_is_bounded(v.windows[i].lines, line);
    let after = v.with_incoming(peer, ts, nick, text, mentioned);
    let w = WindowView { nicks: with_one_of(v.windows[i].nicks, nick), ..v.windows[i] };
    if !v.windows[i].nicks.contains(nick) {
        assert(w.nicks.last() == nick);
        assert(w.nicks[w.nicks.len() - 1] == nick);
    }
    assert(a.windows[i] =~= w);
    assert(after.windows =~= v.windows.update(
        i,
        noticed(w, line, mentioned, v.active == Some(i as usize)),
    ));
}

proof fn lemma_alike(w: WindowView, nick: Seq<char>)
    ensures
        named_like(nick)(w) <==> alike(w.name, nick),
{
    let a = lowercase(w.name);
    let b = lowercase(nick);
    if a.len() <= b.len() {
        assert(b.take(a.len() as int) =~= b.subrange(0, a.len() as int));
    }
    if b.len() <= a.len() {
        assert(a.take(b.len() as int) =~= a.subrange(0, b.len() as int));
    }
}

/// A message of a chat without a window goes to the first window that is called
/// like its sender, one name starting with the other without regard to case. Only
/// that window changes, and its nicks stay as they are.
pub proof fn messages_go_where_their_sender_is(
    v: AppView,
    i: int,
    peer: PeerView,
    ts: Seq<char>,
    nick: Seq<char>,
    text: Seq<char>,
    mentioned: bool,
)
    requires
        v.wf(),
        0 <= i < v.windows.len(),
        forall|j: int| 0 <= j < v.windows.len() ==> (#[trigger] v.windows[j]).peer.id != peer.id,
        alike(v.windows[i].name, nick),
        forall|j: int| 0 <= j < i ==> !alike((#[trigger] v.windows[j]).name, nick),
    ensures
        v.with_incoming(peer, ts, nick, text, mentioned) == (AppView {
            windows: v.windows.update(
                i,
                noticed(
                    v.windows[i],
                    heard(ts, nick, text, mentioned, false),
                    mentioned,
                    v.active == Some(i as usize),
                ),
            ),
            ..v
        }),
{
    let p = in_chat(peer.id);
    lemma_first_window_is(v.windows, p, None);
    let q = named_like(nick);
    assert forall|j: int| 0 <= j < i implies !q(#[trigger] v.windows[j]) by {
        lemma_alike(v.windows[j], nick);
    }
    lemma_alike(v.windows[i], nick);
    lemma_first_window_is(v.windows, q, Some(i as usize));
    lemma_one_more(v.windows[i].lines, heard(ts, nick, text, mentioned, false));
    assert(v.with_incoming(peer, ts, nick, text, mentioned).windows =~= v.windows.update(
        i,
        noticed(
            v.windows[i],
            heard(ts, nick, text, mentioned, false),
            mentioned,
            v.active == Some(i as usize),
        ),
    ));
}

/// A message for which there is no window opens one, behind all others, with the
/// message as its one line, counted and marked; its chat is known from then on, and
/// the window in front stays there.
pub proof fn messages_of_strangers_open_a_window(
    v: AppView,
    peer: PeerView,
    ts: Seq<char>,
    nick: Seq<char>,
    text: Seq<char>,
    mentioned: bool,
)
    requires
        v.wf(),
        v.windows.len() < usize::MAX,
        forall|j: int| 0 <= j < v.windows.len() ==> (#[trigger] v.windows[j]).peer.id != peer.id,
        forall|j: int| 0 <= j < v.windows.len() ==> !alike((#[trigger] v.windows[j]).name, nick),
    ensures
        ({
            let after = v.with_incoming(peer, ts, nick, text, mentioned);
            let name = match peer.name {
                Some(name) => name,
                None => "Unknown"@,
            };
            &&& after.windows == v.windows.push(
                WindowView {
                    peer,
                    name,
                    unread: 1,
                    activity: if mentioned {
                        WindowActivity::Highlight
                    } else {
                        WindowActivity::Text
                    },
                    lines: seq![heard(ts, nick, text, mentioned, false)],
                    nicks: Seq::empty(),
                },
            )
            &&& after.active == v.active
            &&& after.all_chats == v.all_chats.insert(lowercase(name), peer)
            &&& after.ordered_chats == if v.all_chats.dom().contains(lowercase(name)) {
                v.ordered_chats
            } else {
                v.ordered_chats.push(EntryView { key: lowercase(name), peer })
            }
            &&& after.status_lines == v.status_lines
            &&& after.input == v.input
            &&& after.tab == v.tab
            &&& after.theme == v.theme
        }),
{
    lemma_first_window_is(v.windows, in_chat(peer.id), None);
    let q = named_like(nick);
    assert forall|j: int| 0 <= j < v.windows.len() implies !q(#[trigger] v.windows[j]) by {
        lemma_alike(v.windows[j], nick);
    }
    lemma_first_window_is(v.windows, q, None);
    let after = v.with_incoming(peer, ts, nick, text, mentioned);
    let line = heard(ts, nick, text, mentioned, false);
    assert(capped(Seq::<LineView>::empty().push(line)) =~= seq![line]);
    assert(v.with_peer(peer).with_new_window(peer, peer.label()).windows.len() == v.windows.len()
        + 1);
}

/// A new message of somebody else that shows something is taken in under the name
/// of its sender, with all that it shows, and the windows are saved.
pub proof fn new_messages_are_taken_in(v: AppView, new: NewMessageView, ts: Seq<char>)
    requires
        !new.message.outgoing,
        !is_blank(new.message),
    ensures
        v.received(new, ts).app == v.with_incoming(
            new.peer,
            ts,
            author(new.message),
            says(new.message),
            new.mentioned,
        ),
        v.received(new, ts).action == ActionView::Save,
{
}

/// A new message with neither text nor an attachment is passed over, whoever sent it.
pub proof fn blank_messages_are_passed_over(v: AppView, new: NewMessageView, ts: Seq<char>)
    requires
        is_blank(new.message),
    ensures
        v.received(new, ts).app == v,
        v.received(new, ts).action == ActionView::Done,
{
}

/// A message of the user in a chat with a window is the last line of that window,
/// and no other window changes; where the window ends with that very message and
/// did not read it in, nothing changes.
pub proof fn own_messages_are_shown_in_their_chat(
    v: AppView,
    i: int,
    new: NewMessageView,
    ts: Seq<char>,
)
    requires
        v.wf(),
        new.message.outgoing,
        !is_blank(new.message),
        0 <= i < v.windows.len(),
        v.windows[i].peer.id == new.peer.id,
    ensures
        ({
            let lines = v.windows[i].lines;
            let step = v.received(new, ts);
            let last = step.app.windows[i].lines.last();
            &&& step.action == ActionView::Done
            &&& last.prefix == "<You>"@ && last.text == says(new.message) && !last.read_in
            &&& if lines.len() > 0 && lines.last().prefix == "<You>"@ && lines.last().text == says(
                new.message,
            ) && !lines.last().is_sys && !lines.last().read_in {
                step.app == v
            } else {
                step.app == (AppView {
                    windows: v.windows.update(
                        i,
                        WindowView {
                            lines: with_one_more(lines, spoken(ts, says(new.message), false)),
                            ..v.windows[i]
                        },
                    ),
                    ..v
                })
            }
        }),
{
    let p = in_chat(new.peer.id);
    assert forall|j: int| 0 <= j < i implies !p(#[trigger] v.windows[j]) by {
        assert(v.windows[j].peer.id != v.windows[i].peer.id);
    }
    lemma_first_window_is(v.windows, p, Some(i as usize));
    lemma_one_more(v.windows[i].lines, spoken(ts, says(new.message), false));
    scrollback_is_bounded(v.windows[i].lines, spoken(ts, says(new.message), false));
}

/// A message of the user in a chat without a window opens one, behind all others
/// and under the name of the chat, and asks for the past of that window; the message
/// is added once it was read in.
pub proof fn own_messages_open_a_window(v: AppView, new: NewMessageView, ts: Seq<char>)
    requires
        v.wf(),
        new.message.outgoing,
        !is_blank(new.message),
        forall|j: int|
            0 <= j < v.windows.len() ==> (#[trigger] v.windows[j]).peer.id != new.peer.id,
    ensures
        ({
            let step = v.received(new, ts);
            &&& step.app.windows == v.windows.push(
                WindowView {
                    peer: new.peer,
                    name: match new.peer.name {
                        Some(name) => name,
                        None => "Saved Messages"@,
                    },
                    unread: 0,
                    activity: WindowActivity::Quiet,
                    lines: Seq::empty(),
                    nicks: Seq::empty(),
                },
            )
            &&& step.app.active == v.active
            &&& step.app.status_lines == v.status_lines
            &&& step.app.input == v.input
            &&& step.app.all_chats == v.all_chats.insert(
                lowercase(
                    match new.peer.name {
                        Some(name) => name,
                        None => "Unknown"@,
                    },
                ),
                new.peer,
            )
            &&& step.action == (ActionView::LoadHistory {
                win: v.windows.len() as usize,
                limit: 100,
                next: AfterView::Echo { ts, text: says(new.message) },
            })
        }),
{
    lemma_first_window_is(v.windows, in_chat(new.peer.id), None);
}

// ── The past of a window ─────────────────────────────────────────────────────

/// Every message that is read in has its line, the newest last: with the time of
/// the message, the name of its sender, and exactly what the message shows, which is
/// what a live message of the same content shows. Only a message with neither text
/// nor an attachment is shown by a stand-in.
pub proof fn lines_read_in_show_their_messages(
    v: AppView,
    i: int,
    msgs: Seq<MessageView>,
    stamps: Seq<Seq<char>>,
    k: int,
)
    requires
        0 <= i < v.windows.len(),
        0 <= k < msgs.len(),
    ensures
        ({
            let lines = v.with_history(i, msgs, stamps).windows[i].lines;
            let m = msgs[k];
            let text = if is_blank(m) {
                "[media]"@
            } else {
                says(m)
            };
            &&& lines.len() == msgs.len()
            &&& lines[msgs.len() - 1 - k] == if m.outgoing {
                spoken(stamps[k], text, true)
            } else {
                heard(stamps[k], author(m), text, false, true)
            }
        }),
{
    let j = msgs.len() - 1 - k;
    assert(msgs.len() - 1 - j == k);
}

proof fn lemma_senders(nicks: Seq<Seq<char>>, msgs: Seq<MessageView>)
    ensures
        nicks.is_prefix_of(with_senders(nicks, msgs)),
        forall|x: Seq<char>| #[trigger]
            with_senders(nicks, msgs).contains(x) <==> nicks.contains(x) || exists|k: int|
                0 <= k < msgs.len() && !(#[trigger] msgs[k]).outgoing && author(msgs[k]) == x,
    decreases msgs.len(),
{
    if msgs.len() > 0 {
        let t = msgs.drop_first();
        lemma_senders(nicks, t);
        let before = with_senders(nicks, t);
        let after = with_senders(nicks, msgs);
        assert(nicks =~= after.subrange(0, nicks.len() as int));
        assert forall|x: Seq<char>| #[trigger] after.contains(x) <==> nicks.contains(x) || exists|
            k: int,
        |
            0 <= k < msgs.len() && !(#[trigger] msgs[k]).outgoing && author(msgs[k]) == x by {
            if after.contains(x) {
                let j = choose|j: int| 0 <= j < after.len() && after[j] == x;
                if j < before.len() {
                    assert(before[j] == x);
                    assert(before.contains(x));
                    if !nicks.contains(x) {
                        let k = choose|k: int|
                            0 <= k < t.len() && !(#[trigger] t[k]).outgoing && author(t[k]) == x;
                        assert(msgs[k + 1] == t[k]);
                    }
                } else {
                    assert(author(msgs[0]) == x);
                }
            }
            if nicks.contains(x) || exists|k: int|
                0 <= k < msgs.len() && !(#[trigger] msgs[k]).outgoing && author(msgs[k]) == x {
                if !before.contains(x) {
                    let k = choose|k: int|
                        0 <= k < msgs.len() && !(#[trigger] msgs[k]).outgoing && author(msgs[k])
                            == x;
                    if k > 0 {
                        assert(t[k - 1] == msgs[k]);
                    }
                    assert(k == 0);
                    assert(after.last() == x);
                    assert(after[after.len() - 1] == x);
                } else {
                    let j = choose|j: int| 0 <= j < before.len() && before[j] == x;
                    assert(after[j] == x);
                }
            }
        }
    } else {
        assert(nicks =~= nicks.subrange(0, nicks.len() as int));
    }
}

/// Reading in the past of a window changes the lines and nicks of that window alone:
/// its nicks keep their places, and behind them come the other senders of the
/// messages read in, but not the user.
pub proof fn reading_in_keeps_to_its_window(
    v: AppView,
    i: int,
    msgs: Seq<MessageView>,
    stamps: Seq<Seq<char>>,
)
    requires
        0 <= i < v.windows.len(),
    ensures
        ({
            let after = v.with_history(i, msgs, stamps);
            let w = after.windows[i];
            &&& after == (AppView {
                windows: v.windows.update(
                    i,
                    WindowView { lines: w.lines, nicks: w.nicks, ..v.windows[i] },
                ),
                ..v
            })
            &&& v.windows[i].nicks.is_prefix_of(w.nicks)
            &&& forall|x: Seq<char>| #[trigger]
                w.nicks.contains(x) <==> v.windows[i].nicks.contains(x) || exists|k: int|
                    0 <= k < msgs.len() && !(#[trigger] msgs[k]).outgoing && author(msgs[k]) == x
        }),
{
    lemma_senders(v.windows[i].nicks, msgs);
}

// ── Bringing a window up to date ─────────────────────────────────────────────

/// One message brings a window up to date by its line behind all others, with all
/// that the message shows; unless it shows nothing, or one of the thirty newest lines
/// has its time and text. Nothing else changes.
pub proof fn a_refresh_adds_what_is_new(
    v: AppView,
    i: int,
    m: MessageView,
    ts: Seq<char>,
)
    requires
        0 <= i < v.windows.len(),
    ensures
        ({
            let lines = v.windows[i].lines;
            let after = v.with_refresh(i, seq![m], seq![ts]);
            let seen = exists|j: int|
                0 <= j < lines.len() && lines.len() - 30 <= j && (#[trigger] lines[j]).ts == ts
                    && lines[j].text == says(m);
            let line = if m.outgoing {
                spoken(ts, says(m), true)
            } else {
                heard(ts, author(m), says(m), false, true)
            };
            after == if is_blank(m) || seen {
                v
            } else {
                AppView {
                    windows: v.windows.update(
                        i,
                        WindowView { lines: with_one_more(lines, line), ..v.windows[i] },
                    ),
                    ..v
                }
            }
        }),
{
    let lines = v.windows[i].lines;
    reveal_with_fuel(refreshed, 2);
    assert(seq![m].drop_first() =~= Seq::empty());
    let line = if m.outgoing {
        spoken(ts, says(m), true)
    } else {
        heard(ts, author(m), says(m), false, true)
    };
    lemma_one_more(lines, line);
    let after = v.with_refresh(i, seq![m], seq![ts]);
    if after.windows[i].lines == lines {
        assert(after.windows =~= v.windows);
    }
}

/// Messages bring a window up to date one after another, the oldest first, where
/// they are given newest first; without messages nothing changes.
pub proof fn a_refresh_goes_from_old_to_new(
    v: AppView,
    i: int,
    msgs: Seq<MessageView>,
    stamps: Seq<Seq<char>>,
)
    requires
        0 <= i < v.windows.len(),
        stamps.len() == msgs.len(),
    ensures
        msgs.len() == 0 ==> v.with_refresh(i, msgs, stamps) == v,
        msgs.len() > 0 ==> v.with_refresh(i, msgs, stamps) == v.with_refresh(
            i,
            msgs.drop_first(),
            stamps.drop_first(),
        ).with_refresh(i, seq![msgs[0]], seq![stamps[0]]),
{
    if msgs.len() == 0 {
        assert(v.with_refresh(i, msgs, stamps).windows =~= v.windows);
    } else {
        let a = v.with_refresh(i, msgs.drop_first(), stamps.drop_first());
        reveal_with_fuel(refreshed, 2);
        assert(seq![msgs[0]].drop_first() =~= Seq::empty());
        assert(a.with_refresh(i, seq![msgs[0]], seq![stamps[0]]).windows =~= v.with_refresh(
            i,
            msgs,
            stamps,
        ).windows);
    }
}

/// A message of somebody else shows the same whether it comes in live, is read in, or
/// is found when the window is brought up to date: the same time, the same sender and
/// the same text, its attachment with it.
pub proof fn messages_show_the_same_however_they_come(
    v: AppView,
    i: int,
    new: NewMessageView,
    ts: Seq<char>,
)
    requires
        v.wf(),
        0 <= i < v.windows.len(),
        v.windows[i].peer.id == new.peer.id,
        !new.message.outgoing,
        !is_blank(new.message),
    ensures
        ({
            let live = v.received(new, ts).app.windows[i].lines.last();
            let past = v.with_history(i, seq![new.message], seq![ts]).windows[i].lines.last();
            let lines = v.with_refresh(i, seq![new.message], seq![ts]).windows[i].lines;
            &&& past.ts == live.ts
            &&& past.prefix == live.prefix
            &&& past.text == live.text
            &&& exists|j: int|
                0 <= j < lines.len() && (#[trigger] lines[j]).ts == live.ts && lines[j].text
                    == live.text
        }),
{
    let m = new.message;
    new_messages_are_taken_in(v, new, ts);
    messages_stay_in_their_chat(v, i, new.peer, ts, author(m), says(m), new.mentioned);
    lines_read_in_show_their_messages(v, i, seq![m], seq![ts], 0);
    a_refresh_adds_what_is_new(v, i, m, ts);
    let old_lines = v.windows[i].lines;
    let lines = v.with_refresh(i, seq![m], seq![ts]).windows[i].lines;
    if exists|j: int|
        0 <= j < old_lines.len() && old_lines.len() - 30 <= j && (#[trigger] old_lines[j]).ts == ts
            && old_lines[j].text == says(m) {
        let j = choose|j: int|
            0 <= j < old_lines.len() && old_lines.len() - 30 <= j && (#[trigger] old_lines[j]).ts
                == ts && old_lines[j].text == says(m);
        assert(lines[j] == old_lines[j]);
    } else {
        assert(lines[lines.len() - 1].text == says(m));
    }
}

// ── Attachments ──────────────────────────────────────────────────────────────

/// The label of an attachment says what it is and shows what is known of it, and a
/// stand-in for what is not.
pub proof fn labels_name_their_attachments(
    a: Seq<char>,
    b: Seq<char>,
    known: Option<Seq<char>>,
    kind: Option<Seq<char>>,
)
    ensures
        media_label(MediaView::Photo { path: a }) == "[Photo: t.me/"@ + a + "]"@,
        media_label(MediaView::Sticker { emoji: Some(a) }) == "[Sticker "@ + a + "]"@,
        media_label(MediaView::Sticker { emoji: None }) == "[Sticker "@ + "?"@ + "]"@,
        media_label(MediaView::Contact { first: a, last: Some(b) }) == "[Contact: "@ + a + " "@ + b
            + "]"@,
        media_label(MediaView::Contact { first: a, last: None }) == "[Contact: "@ + a + " "@ + "]"@,
        media_label(MediaView::Geo { coordinates: a }) == "[Location: "@ + a + "]"@,
        media_label(MediaView::GeoLive { coordinates: a }) == "[Live Location: "@ + a + "]"@,
        media_label(MediaView::Poll { question: a }) == "[Poll: "@ + a + "]"@,
        media_label(MediaView::Venue { title: a }) == "[Venue: "@ + a + "]"@,
        media_label(MediaView::Other) == "[Media]"@,
        media_label(MediaView::Document { name: None, mime: kind }) == media_label(
            MediaView::Document { name: Some("file"@), mime: kind },
        ),
        media_label(MediaView::Document { name: Some(a), mime: None }) == "[File: "@ + a + "]"@,
        media_label(MediaView::Document { name: Some(a), mime: Some("video/"@ + b) }) == "[Video: "@
            + a + "]"@,
        media_label(MediaView::Document { name: Some(a), mime: Some("audio/"@ + b) }) == "[Audio: "@
            + a + "]"@,
        media_label(MediaView::Document { name: known, mime: Some("image/gif"@) }) == "[GIF/Anim]"@,
        media_label(MediaView::Document { name: known, mime: Some("image/webp"@) })
            == "[GIF/Anim]"@,
        !"video/"@.is_prefix_of(b) && !"audio/"@.is_prefix_of(b) && b != "image/gif"@ && b
            != "image/webp"@ ==> media_label(MediaView::Document { name: Some(a), mime: Some(b) })
            == "[File: "@ + a + "]"@,
{
    reveal_strlit("");
    reveal_strlit("?");
    reveal_strlit("video/");
    reveal_strlit("audio/");
    reveal_strlit("image/gif");
    reveal_strlit("image/webp");
    lemma_not_prefix("?"@, "video/"@, 0);
    lemma_not_prefix("?"@, "audio/"@, 0);
    lemma_not_prefix("?"@, "image/gif"@, 0);
    lemma_not_prefix("?"@, "image/webp"@, 0);
    assert(("video/"@ + b).take(6) =~= "video/"@);
    assert(("audio/"@ + b).take(6) =~= "audio/"@);
    lemma_not_prefix("audio/"@ + b, "video/"@, 0);
    lemma_not_prefix("image/gif"@, "video/"@, 0);
    lemma_not_prefix("image/gif"@, "audio/"@, 0);
    lemma_not_prefix("image/webp"@, "video/"@, 0);
    lemma_not_prefix("image/webp"@, "audio/"@, 0);
    assert("[Contact: "@ + a + " "@ + ""@ + "]"@ =~= "[Contact: "@ + a + " "@ + "]"@);
    if has_prefix(b, "video/"@) {
        assert("video/"@ =~= b.subrange(0, 6));
    }
    if has_prefix(b, "audio/"@) {
        assert("audio/"@ =~= b.subrange(0, 6));
    }
}

/// A message is found under the user name of its chat and its own number, or, where
/// the chat has no user name, under the number of the chat.
pub proof fn links_lead_to_the_message(name: Seq<char>, chat: i64, message: i32)
    ensures
        link_path(Some(name), chat, message) == name + "/"@ + decimal_int(message as int),
        link_path(None, chat, message) == "c/"@ + decimal_int(chat as int) + "/"@ + decimal_int(
            message as int,
        ),
{
}

} // verus!
