//! What is promised of the models: they show what they are models of, field by field
//! and item by item in its order.
use vstd::prelude::*;
use crate::action::{Action, ActionView, AfterHistory, AfterView};
use crate::app::{
    entries_view, lines_view, windows_view, App, ChatEntry, ChatLine, TabState, Window,
};
use crate::event::NewMessage;
use crate::history::{messages_view, Media, MediaView, Message};
use crate::pane::{rows_view, Pane};
use crate::peer::{Peer, PeerView};
use crate::reply::{found_view, opt_members, opt_messages, peers_view};
use crate::roster::{member_names, Member};
use crate::style::{spans_view, Span};
use crate::text::{strs, texts};

verus! {

/// The text of an optional text, if there is one.
pub open spec fn text_of(o: Option<String>) -> Option<Seq<char>> {
    match o {
        Some(s) => Some(s@),
        None => None,
    }
}

/// The models of rows of things have the models of the things, in their order.
pub proof fn models_keep_the_order(
    i: int,
    lines: Seq<ChatLine>,
    windows: Seq<Window>,
    chats: Seq<ChatEntry>,
    messages: Seq<Message>,
    peers: Seq<Peer>,
    members: Seq<Member>,
    spans: Seq<Span>,
    rows: Seq<Vec<Span>>,
    owned: Seq<String>,
    lent: Seq<&str>,
)
    ensures
        lines_view(lines).len() == lines.len(),
        0 <= i < lines.len() ==> lines_view(lines)[i] == lines[i]@,
        windows_view(windows).len() == windows.len(),
        0 <= i < windows.len() ==> windows_view(windows)[i] == windows[i]@,
        entries_view(chats).len() == chats.len(),
        0 <= i < chats.len() ==> entries_view(chats)[i] == chats[i]@,
        messages_view(messages).len() == messages.len(),
        0 <= i < messages.len() ==> messages_view(messages)[i] == messages[i]@,
        peers_view(peers).len() == peers.len(),
        0 <= i < peers.len() ==> peers_view(peers)[i] == peers[i]@,
        member_names(members).len() == members.len(),
        0 <= i < members.len() ==> member_names(members)[i] == members[i]@.name(),
        spans_view(spans).len() == spans.len(),
        0 <= i < spans.len() ==> spans_view(spans)[i] == spans[i]@,
        rows_view(rows).len() == rows.len(),
        0 <= i < rows.len() ==> rows_view(rows)[i] == spans_view(rows[i]@),
        texts(owned).len() == owned.len(),
        0 <= i < owned.len() ==> texts(owned)[i] == owned[i]@,
        strs(lent).len() == lent.len(),
        0 <= i < lent.len() ==> strs(lent)[i] == lent[i]@,
{
}

/// The model of the state has all of the state.
pub proof fn the_model_shows_the_state(app: App)
    ensures
        app@.windows == windows_view(app.windows@),
        app@.active == app.active,
        app@.input == app.input@,
        app@.status_lines == lines_view(app.status_lines@),
        app@.all_chats == app.all_chats@,
        app@.ordered_chats == entries_view(app.ordered_chats@),
        app@.theme == app.theme@,
        app@.tab is Some <==> app.tab is Some,
        app.tab matches Some(t) ==> app@.tab == Some(t@),
{
}

/// The models of windows, their lines and the chats have all of them.
pub proof fn models_show_windows_and_chats(
    w: Window,
    l: ChatLine,
    e: ChatEntry,
    p: Peer,
    t: TabState,
)
    ensures
        w@.peer == w.peer@,
        w@.name == w.name@,
        w@.unread == w.unread,
        w@.activity == w.activity,
        w@.lines == lines_view(w.lines@),
        w@.nicks == texts(w.nicks@),
        l@.ts == l.ts@,
        l@.prefix == l.prefix@,
        l@.text == l.text@,
        l@.is_sys == l.is_sys,
        l@.is_highlight == l.is_highlight,
        l@.nick == text_of(l.nick),
        l@.read_in == l.read_in,
        e@.key == e.key@,
        e@.peer == e.peer@,
        p@.id == p.id,
        p@.name == text_of(p.name),
        p@.username == text_of(p.username),
        t@.candidates == texts(t.candidates@),
        t@.idx == t.idx,
        t@.cmd_prefix == t.cmd_prefix@,
        t@.word_start == t.word_start@,
{
}

/// The models of messages and members have all of them.
pub proof fn models_show_messages(m: Message, n: NewMessage, a: Media, b: Member)
    ensures
        m@.date == m.date,
        m@.sender == text_of(m.sender),
        m@.text == m.text@,
        m@.outgoing == m.outgoing,
        m@.media is Some <==> m.media is Some,
        m.media matches Some(media) ==> m@.media == Some(media@),
        n@.peer == n.peer@,
        n@.message == n.message@,
        n@.mentioned == n.mentioned,
        a@ == (match a {
            Media::Sticker { emoji } => MediaView::Sticker { emoji: text_of(emoji) },
            Media::Photo { path } => MediaView::Photo { path: path@ },
            Media::Document { name, mime } => MediaView::Document {
                name: text_of(name),
                mime: text_of(mime),
            },
            Media::Contact { first, last } => MediaView::Contact {
                first: first@,
                last: text_of(last),
            },
            Media::Geo { coordinates } => MediaView::Geo { coordinates: coordinates@ },
            Media::GeoLive { coordinates } => MediaView::GeoLive { coordinates: coordinates@ },
            Media::Poll { question } => MediaView::Poll { question: question@ },
            Media::Venue { title } => MediaView::Venue { title: title@ },
            Media::Other => MediaView::Other,
        }),
        b@.first_name == text_of(b.first_name),
        b@.username == text_of(b.username),
{
}

/// The models of what the outside world answers have all that it gave, or that it
/// gave nothing.
pub proof fn models_show_answers(
    messages: Vec<Message>,
    members: Vec<Member>,
    peers: Vec<Peer>,
    error: String,
)
    ensures
        opt_messages(Some(messages)) == Some(messages_view(messages@)),
        opt_messages(None) is None,
        opt_members(Some(members)) == Some(member_names(members@)),
        opt_members(None) is None,
        found_view(Ok(peers)) == Ok::<Seq<PeerView>, Seq<char>>(peers_view(peers@)),
        found_view(Err(error)) == Err::<Seq<PeerView>, Seq<char>>(error@),
{
}

/// The model of what is asked for has all of it.
pub proof fn models_show_what_is_asked(a: Action, next: AfterHistory)
    ensures
        a@ == (match a {
            Action::Done => ActionView::Done,
            Action::Save => ActionView::Save,
            Action::Quit => ActionView::Quit,
            Action::LoadHistory { win, limit, next } => ActionView::LoadHistory {
                win,
                limit,
                next: next@,
            },
            Action::Refresh { win, limit } => ActionView::Refresh { win, limit },
            Action::Send { win, peer, text, kind } => ActionView::Send {
                win,
                peer: peer@,
                text: text@,
                kind,
            },
            Action::FetchNames { peer, window } => ActionView::FetchNames { peer: peer@, window },
            Action::Search { query } => ActionView::Search { query: query@ },
        }),
        next@ == (match next {
            AfterHistory::Save => AfterView::Save,
            AfterHistory::Closed { name } => AfterView::Closed { name: name@ },
            AfterHistory::Send { peer, text } => AfterView::Send { peer: peer@, text: text@ },
            AfterHistory::Reloaded => AfterView::Reloaded,
            AfterHistory::Restored { count } => AfterView::Restored { count },
            AfterHistory::Echo { ts, text } => AfterView::Echo { ts: ts@, text: text@ },
        }),
{
}

/// The models of what is drawn have all of it.
pub proof fn models_show_what_is_drawn(s: Span, p: Pane)
    ensures
        s@.text == s.text@,
        s@.fg == s.fg,
        s@.bg == s.bg,
        s@.bold == s.bold,
        p@.rows == rows_view(p.rows@),
        p@.wrap == p.wrap,
{
}

} // verus!
