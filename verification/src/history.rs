//! Messages: what is shown of them, and how a window's past is read in.
use std::collections::VecDeque;
use vstd::prelude::*;
use crate::app::{
    capped, chat_line, chat_line_at, has_text, lemma_windows_update, lines_view, own_line,
    own_line_at, push_line, App, AppView, ChatLine, LineView, WindowView,
};
use crate::chats::lemma_window_wf;
use crate::clock::{is_clock, local_time, shown_at};
use crate::peer::{or_else_text, text_or};
use crate::text::{
    decimal_int, decimal_signed, has_prefix, opt_str, opt_string, same, starts_with, texts,
};

verus! {

/// How many of the newest lines are searched for a message before it is added
/// again.
pub const RECENT: usize = 30;

// ── Attachments ──────────────────────────────────────────────────────────────

/// What is attached to a message.
#[derive(Debug)]
pub enum Media {
    Sticker { emoji: Option<String> },
    /// A picture; `path` is where it is found under `t.me`.
    Photo { path: String },
    Document { name: Option<String>, mime: Option<String> },
    Contact { first: String, last: Option<String> },
    /// A place; the coordinates are written with four decimals and a comma.
    Geo { coordinates: String },
    GeoLive { coordinates: String },
    Poll { question: String },
    Venue { title: String },
    Other,
}

/// The model of an attachment.
#[verifier::ext_equal]
pub enum MediaView {
    Sticker { emoji: Option<Seq<char>> },
    Photo { path: Seq<char> },
    Document { name: Option<Seq<char>>, mime: Option<Seq<char>> },
    Contact { first: Seq<char>, last: Option<Seq<char>> },
    Geo { coordinates: Seq<char> },
    GeoLive { coordinates: Seq<char> },
    Poll { question: Seq<char> },
    Venue { title: Seq<char> },
    Other,
}

impl View for Media {
    type V = MediaView;

    open spec fn view(&self) -> MediaView {
        match *self {
            Media::Sticker { emoji } => MediaView::Sticker { emoji: opt_string(emoji) },
            Media::Photo { path } => MediaView::Photo { path: path@ },
            Media::Document { name, mime } => MediaView::Document {
                name: opt_string(name),
                mime: opt_string(mime),
            },
            Media::Contact { first, last } => MediaView::Contact {
                first: first@,
                last: opt_string(last),
            },
            Media::Geo { coordinates } => MediaView::Geo { coordinates: coordinates@ },
            Media::GeoLive { coordinates } => MediaView::GeoLive { coordinates: coordinates@ },
            Media::Poll { question } => MediaView::Poll { question: question@ },
            Media::Venue { title } => MediaView::Venue { title: title@ },
            Media::Other => MediaView::Other,
        }
    }
}

/// Where a message is found under `t.me`: under the user name of its chat, or else
/// under the number of the chat.
pub open spec fn link_path(username: Option<Seq<char>>, chat: i64, message: i32) -> Seq<char> {
    match username {
        Some(name) => name + "/"@ + decimal_int(message as int),
        None => "c/"@ + decimal_int(chat as int) + "/"@ + decimal_int(message as int),
    }
}

/// Where a message is found under `t.me`.
pub fn message_path(username: Option<&str>, chat: i64, message: i32) -> (r: String)
    ensures
        r@ == link_path(opt_str(username), chat, message),
{
    let number = decimal_signed(message as i64);
    match username {
        Some(name) => wrapped(name, "/", number.as_str()),
        None => {
            let id = decimal_signed(chat);
            let mut s = wrapped("c/", id.as_str(), "/");
            s.append(number.as_str());
            s
        },
    }
}

/// The label of a file, by its kind. A video goes by the name of its file, as every
/// file does; it is the label of a picture, which has no name, that is a link.
pub open spec fn document_label(name: Seq<char>, mime: Seq<char>) -> Seq<char> {
    if has_prefix(mime, "video/"@) {
        "[Video: "@ + name + "]"@
    } else if has_prefix(mime, "audio/"@) {
        "[Audio: "@ + name + "]"@
    } else if mime == "image/gif"@ || mime == "image/webp"@ {
        "[GIF/Anim]"@
    } else {
        "[File: "@ + name + "]"@
    }
}

/// The label that stands for an attachment.
pub open spec fn media_label(m: MediaView) -> Seq<char> {
    match m {
        MediaView::Sticker { emoji } => "[Sticker "@ + or_else_text(emoji, "?"@) + "]"@,
        MediaView::Photo { path } => "[Photo: t.me/"@ + path + "]"@,
        MediaView::Document { name, mime } => document_label(
            or_else_text(name, "file"@),
            or_else_text(mime, "?"@),
        ),
        MediaView::Contact { first, last } => "[Contact: "@ + first + " "@ + or_else_text(last, ""@)
            + "]"@,
        MediaView::Geo { coordinates } => "[Location: "@ + coordinates + "]"@,
        MediaView::GeoLive { coordinates } => "[Live Location: "@ + coordinates + "]"@,
        MediaView::Poll { question } => "[Poll: "@ + question + "]"@,
        MediaView::Venue { title } => "[Venue: "@ + title + "]"@,
        MediaView::Other => "[Media]"@,
    }
}

/// `middle` between `left` and `right`.
pub fn wrapped(left: &str, middle: &str, right: &str) -> (r: String)
    ensures
        r@ == left@ + middle@ + right@,
{
    let mut s = left.to_owned();
    s.append(middle);
    s.append(right);
    s
}

/// The label of a file, by its kind.
fn describe_document(name: &str, mime: &str) -> (r: String)
    ensures
        r@ == document_label(name@, mime@),
{
    if starts_with(mime, "video/") {
        wrapped("[Video: ", name, "]")
    } else if starts_with(mime, "audio/") {
        wrapped("[Audio: ", name, "]")
    } else if same(mime, "image/gif") || same(mime, "image/webp") {
        "[GIF/Anim]".to_owned()
    } else {
        wrapped("[File: ", name, "]")
    }
}

/// The label that stands for an attachment.
pub fn describe_media(media: &Media) -> (r: String)
    ensures
        r@ == media_label(media@),
{
    match media {
        Media::Sticker { emoji } => wrapped("[Sticker ", text_or(emoji, "?"), "]"),
        Media::Photo { path } => wrapped("[Photo: t.me/", path.as_str(), "]"),
        Media::Document { name, mime } => describe_document(
            text_or(name, "file"),
            text_or(mime, "?"),
        ),
        Media::Contact { first, last } => {
            let mut s = wrapped("[Contact: ", first.as_str(), " ");
            s.append(text_or(last, ""));
            s.append("]");
            s
        },
        Media::Geo { coordinates } => wrapped("[Location: ", coordinates.as_str(), "]"),
        Media::GeoLive { coordinates } => wrapped("[Live Location: ", coordinates.as_str(), "]"),
        Media::Poll { question } => wrapped("[Poll: ", question.as_str(), "]"),
        Media::Venue { title } => wrapped("[Venue: ", title.as_str(), "]"),
        Media::Other => "[Media]".to_owned(),
    }
}

// ── Messages ─────────────────────────────────────────────────────────────────

/// A message of a chat.
#[derive(Debug)]
pub struct Message {
    /// When it was sent, in seconds since the epoch.
    pub date: i32,
    pub sender: Option<String>,
    pub text: String,
    pub media: Option<Media>,
    /// Whether the user sent it.
    pub outgoing: bool,
}

/// The model of a message.
#[verifier::ext_equal]
pub struct MessageView {
    pub date: i32,
    pub sender: Option<Seq<char>>,
    pub text: Seq<char>,
    pub media: Option<MediaView>,
    pub outgoing: bool,
}

/// The model of an optional attachment.
pub open spec fn opt_media(m: Option<Media>) -> Option<MediaView> {
    match m {
        Some(m) => Some(m@),
        None => None,
    }
}

impl View for Message {
    type V = MessageView;

    open spec fn view(&self) -> MessageView {
        MessageView {
            date: self.date,
            sender: opt_string(self.sender),
            text: self.text@,
            media: opt_media(self.media),
            outgoing: self.outgoing,
        }
    }
}

/// The models of a row of messages.
pub open spec fn messages_view(s: Seq<Message>) -> Seq<MessageView> {
    Seq::new(s.len(), |i: int| s[i]@)
}

/// What is shown of a message: its text, behind the label of its attachment; none
/// when it has neither.
pub open spec fn caption_of(text: Seq<char>, media: Option<MediaView>) -> Option<Seq<char>> {
    match media {
        Some(m) => if text.len() == 0 {
            Some(media_label(m))
        } else {
            Some(media_label(m) + " "@ + text)
        },
        None => if text.len() == 0 {
            None
        } else {
            Some(text)
        },
    }
}

/// What is shown of a message, if it has text or an attachment.
pub fn caption(text: &str, media: &Option<Media>) -> (r: Option<String>)
    ensures
        opt_string(r) == caption_of(text@, opt_media(*media)),
{
    match media {
        Some(m) => {
            let mut s = describe_media(m);
            if text.unicode_len() > 0 {
                s.append(" ");
                s.append(text);
            }
            Some(s)
        },
        None => if text.unicode_len() > 0 {
            Some(text.to_owned())
        } else {
            None
        },
    }
}

impl MessageView {
    /// The name of the sender.
    pub open spec fn sender_name(self) -> Seq<char> {
        or_else_text(self.sender, "Unknown"@)
    }

    /// What is shown of the message.
    pub open spec fn shown(self) -> Option<Seq<char>> {
        caption_of(self.text, self.media)
    }

    /// The line of the message, with `text` to show.
    pub open spec fn line(self, ts: Seq<char>, text: Seq<char>) -> LineView {
        if self.outgoing {
            LineView { read_in: true, ..own_line(ts, text) }
        } else {
            LineView { read_in: true, ..chat_line(ts, self.sender_name(), text, false) }
        }
    }
}

impl Message {
    /// The name of the sender.
    pub fn sender_name(&self) -> (r: &str)
        ensures
            r@ == self@.sender_name(),
    {
        text_or(&self.sender, "Unknown")
    }

    /// The line of the message, with `text` to show.
    fn line_at(&self, ts: &str, text: &str) -> (l: ChatLine)
        ensures
            l@ == self@.line(ts@, text@),
    {
        let mut l = if self.outgoing {
            own_line_at(ts, text)
        } else {
            chat_line_at(ts, self.sender_name(), text, false)
        };
        l.read_in = true;
        l
    }
}

/// The local times of a row of messages.
pub(crate) fn times_of(msgs: &Vec<Message>) -> (stamps: Vec<String>)
    ensures
        stamps@.len() == msgs@.len(),
        stamps_for(texts(stamps@), messages_view(msgs@)),
{
    let mut stamps: Vec<String> = Vec::new();
    let mut i: usize = 0;
    while i < msgs.len()
        invariant
            i <= msgs@.len(),
            stamps@.len() == i,
            forall|j: int|
                0 <= j < i ==> is_clock(#[trigger] texts(stamps@)[j]) && shown_at(
                    messages_view(msgs@)[j].date,
                    texts(stamps@)[j],
                ),
        decreases msgs.len() - i,
    {
        let ghost before = stamps@;
        stamps.push(local_time(msgs[i].date));
        assert forall|j: int| 0 <= j < i + 1 implies is_clock(#[trigger] texts(stamps@)[j])
            && shown_at(messages_view(msgs@)[j].date, texts(stamps@)[j]) by {
            if j < i {
                assert(texts(before)[j] == texts(stamps@)[j]);
            }
        }
        i = i + 1;
    }
    stamps
}

// ── Reading in the past of a window ──────────────────────────────────────────

/// The lines of messages that are given newest first, oldest line first.
pub open spec fn history_lines(msgs: Seq<MessageView>, stamps: Seq<Seq<char>>) -> Seq<LineView> {
    Seq::new(
        msgs.len(),
        |i: int|
            msgs[msgs.len() - 1 - i].line(
                stamps[msgs.len() - 1 - i],
                or_else_text(msgs[msgs.len() - 1 - i].shown(), "[media]"@),
            ),
    )
}

/// The nicks with the sender of a message of somebody else added.
pub open spec fn with_sender(nicks: Seq<Seq<char>>, m: MessageView) -> Seq<Seq<char>> {
    if m.outgoing || nicks.contains(m.sender_name()) {
        nicks
    } else {
        nicks.push(m.sender_name())
    }
}

/// The nicks with the senders of messages added that are given newest first,
/// those of the oldest messages first.
pub open spec fn with_senders(nicks: Seq<Seq<char>>, msgs: Seq<MessageView>) -> Seq<Seq<char>>
    decreases msgs.len(),
{
    if msgs.len() == 0 {
        nicks
    } else {
        with_sender(with_senders(nicks, msgs.drop_first()), msgs[0])
    }
}

/// Whether one of the newest lines has this time and text.
pub open spec fn seen_lately(lines: Seq<LineView>, ts: Seq<char>, text: Seq<char>) -> bool {
    exists|i: int|
        0 <= i < lines.len() && lines.len() - RECENT <= i && (#[trigger] lines[i]).ts == ts
            && lines[i].text == text
}

/// The lines with one message added, unless it shows nothing or was seen lately.
pub open spec fn refreshed_by(lines: Seq<LineView>, m: MessageView, ts: Seq<char>) -> Seq<LineView> {
    match m.shown() {
        Some(text) => if seen_lately(lines, ts, text) {
            lines
        } else {
            capped(lines.push(m.line(ts, text)))
        },
        None => lines,
    }
}

/// The lines with messages added that are given newest first, the oldest first.
pub open spec fn refreshed(
    lines: Seq<LineView>,
    msgs: Seq<MessageView>,
    stamps: Seq<Seq<char>>,
) -> Seq<LineView>
    decreases msgs.len(),
{
    if msgs.len() == 0 {
        lines
    } else {
        refreshed_by(
            refreshed(lines, msgs.drop_first(), stamps.drop_first()),
            msgs[0],
            stamps[0],
        )
    }
}

/// Whether the stamps are times of day, one for each message, which a clock shows
/// when the message was sent.
pub open spec fn stamps_for(stamps: Seq<Seq<char>>, msgs: Seq<MessageView>) -> bool {
    stamps.len() == msgs.len() && forall|i: int|
        0 <= i < msgs.len() ==> is_clock(#[trigger] stamps[i]) && shown_at(
            msgs[i].date,
            stamps[i],
        )
}

impl AppView {
    /// The state with the lines of window `i` replaced by those of messages given
    /// newest first.
    pub open spec fn with_history(
        self,
        i: int,
        msgs: Seq<MessageView>,
        stamps: Seq<Seq<char>>,
    ) -> AppView {
        self.with_window(
            i,
            WindowView {
                lines: history_lines(msgs, stamps),
                nicks: with_senders(self.windows[i].nicks, msgs),
                ..self.windows[i]
            },
        )
    }

    /// The state with messages given newest first added to window `i`.
    pub open spec fn with_refresh(
        self,
        i: int,
        msgs: Seq<MessageView>,
        stamps: Seq<Seq<char>>,
    ) -> AppView {
        self.with_window(
            i,
            WindowView {
                lines: refreshed(self.windows[i].lines, msgs, stamps),
                ..self.windows[i]
            },
        )
    }
}

/// Whether one of the newest lines has this time and text.
fn was_seen_lately(lines: &VecDeque<ChatLine>, ts: &str, text: &str) -> (r: bool)
    ensures
        r == seen_lately(lines_view(lines@), ts@, text@),
{
    let n = lines.len();
    let start: usize = if n > RECENT { n - RECENT } else { 0 };
    let mut i: usize = start;
    while i < n
        invariant
            n == lines@.len(),
            start <= i <= n,
            start == if n > RECENT { n - RECENT } else { 0 },
            forall|j: int|
                start <= j < i ==> !((#[trigger] lines_view(lines@)[j]).ts == ts@ && lines_view(
                    lines@,
                )[j].text == text@),
        decreases n - i,
    {
        if same(lines[i].ts.as_str(), ts) && same(lines[i].text.as_str(), text) {
            assert(lines_view(lines@)[i as int].ts == ts@);
            return true;
        }
        i = i + 1;
    }
    false
}

/// The lines of messages that are given newest first, oldest line first.
fn make_lines(msgs: &Vec<Message>, stamps: &Vec<String>) -> (lines: VecDeque<ChatLine>)
    requires
        stamps@.len() == msgs@.len(),
    ensures
        lines_view(lines@) == history_lines(messages_view(msgs@), texts(stamps@)),
{
    let ghost all = messages_view(msgs@);
    let ghost times = texts(stamps@);
    let mut lines: VecDeque<ChatLine> = VecDeque::new();
    let mut k: usize = msgs.len();
    while k > 0
        invariant
            k <= msgs@.len(),
            stamps@.len() == msgs@.len(),
            all == messages_view(msgs@),
            times == texts(stamps@),
            lines@.len() == msgs@.len() - k,
            forall|j: int|
                0 <= j < lines@.len() ==> (#[trigger] lines@[j])@ == history_lines(all, times)[j],
        decreases k,
    {
        k = k - 1;
        let m = &msgs[k];
        assert(all[k as int] == m@);
        assert(times[k as int] == stamps@[k as int]@);
        let text = match caption(m.text.as_str(), &m.media) {
            Some(t) => t,
            None => "[media]".to_owned(),
        };
        let line = m.line_at(stamps[k].as_str(), text.as_str());
        lines.push_back(line);
    }
    assert(lines_view(lines@) =~= history_lines(all, times));
    lines
}

/// Adds the senders of messages that are given newest first.
fn note_senders(nicks: &mut Vec<String>, msgs: &Vec<Message>)
    ensures
        texts(final(nicks)@) == with_senders(texts(old(nicks)@), messages_view(msgs@)),
{
    let ghost first = texts(nicks@);
    let ghost all = messages_view(msgs@);
    let mut k: usize = msgs.len();
    assert(all.skip(k as int) =~= Seq::empty());
    while k > 0
        invariant
            k <= msgs@.len(),
            all == messages_view(msgs@),
            texts(nicks@) == with_senders(first, all.skip(k as int)),
        decreases k,
    {
        k = k - 1;
        let m = &msgs[k];
        assert(all[k as int] == m@);
        assert(all.skip(k as int).drop_first() =~= all.skip(k + 1));
        if !m.outgoing && !has_text(nicks, m.sender_name()) {
            let ghost before = texts(nicks@);
            nicks.push(m.sender_name().to_owned());
            assert(texts(nicks@) =~= before.push(m@.sender_name()));
        }
    }
    assert(all.skip(0) =~= all);
}

/// Adds messages that are given newest first, but for those that show nothing or
/// were seen lately.
fn refresh_lines(lines: &mut VecDeque<ChatLine>, msgs: &Vec<Message>, stamps: &Vec<String>)
    requires
        stamps@.len() == msgs@.len(),
    ensures
        lines_view(final(lines)@) == refreshed(
            lines_view(old(lines)@),
            messages_view(msgs@),
            texts(stamps@),
        ),
{
    let ghost first = lines_view(lines@);
    let ghost all = messages_view(msgs@);
    let ghost times = texts(stamps@);
    let mut k: usize = msgs.len();
    assert(all.skip(k as int) =~= Seq::empty());
    while k > 0
        invariant
            k <= msgs@.len(),
            stamps@.len() == msgs@.len(),
            all == messages_view(msgs@),
            times == texts(stamps@),
            lines_view(lines@) == refreshed(first, all.skip(k as int), times.skip(k as int)),
        decreases k,
    {
        k = k - 1;
        let m = &msgs[k];
        assert(all[k as int] == m@);
        assert(times[k as int] == stamps@[k as int]@);
        assert(all.skip(k as int).drop_first() =~= all.skip(k + 1));
        assert(times.skip(k as int).drop_first() =~= times.skip(k + 1));
        if let Some(text) = caption(m.text.as_str(), &m.media) {
            if !was_seen_lately(lines, stamps[k].as_str(), text.as_str()) {
                let line = m.line_at(stamps[k].as_str(), text.as_str());
                push_line(lines, line);
            }
        }
    }
    assert(all.skip(0) =~= all);
    assert(times.skip(0) =~= times);
}

impl App {
    /// Replaces the lines of window `i` by those of messages given newest first,
    /// stamped `stamps`, and notes their senders.
    pub fn show_history(&mut self, i: usize, msgs: &Vec<Message>, stamps: &Vec<String>)
        requires
            old(self).wf(),
            i < old(self)@.windows.len(),
            stamps@.len() == msgs@.len(),
        ensures
            final(self).wf(),
            final(self)@ == old(self)@.with_history(
                i as int,
                messages_view(msgs@),
                texts(stamps@),
            ),
    {
        let ghost before = *self;
        self.windows[i].lines = make_lines(msgs, stamps);
        note_senders(&mut self.windows[i].nicks, msgs);
        proof {
            let want = before@.with_history(i as int, messages_view(msgs@), texts(stamps@));
            lemma_windows_update(before.windows@, self.windows@, i as int);
            assert(self.windows@[i as int]@ =~= want.windows[i as int]);
            assert(self@ =~= want);
            lemma_window_wf(before@, i as int, want.windows[i as int]);
        }
    }

    /// Reads in the past of window `i` from messages given newest first.
    pub fn load_history(&mut self, i: usize, msgs: &Vec<Message>)
        requires
            old(self).wf(),
            i < old(self)@.windows.len(),
        ensures
            final(self).wf(),
            exists|stamps: Seq<Seq<char>>|
                stamps_for(stamps, messages_view(msgs@)) && final(self)@ == #[trigger] old(
                    self,
                )@.with_history(i as int, messages_view(msgs@), stamps),
    {
        let stamps = times_of(msgs);
        self.show_history(i, msgs, &stamps);
    }

    /// Adds messages given newest first to window `i`, stamped `stamps`, but for
    /// those that show nothing or were seen lately.
    pub fn show_refresh(&mut self, i: usize, msgs: &Vec<Message>, stamps: &Vec<String>)
        requires
            old(self).wf(),
            i < old(self)@.windows.len(),
            stamps@.len() == msgs@.len(),
        ensures
            final(self).wf(),
            final(self)@ == old(self)@.with_refresh(
                i as int,
                messages_view(msgs@),
                texts(stamps@),
            ),
    {
        let ghost before = *self;
        assert(before@.windows[i as int] == before.windows@[i as int]@);
        refresh_lines(&mut self.windows[i].lines, msgs, stamps);
        proof {
            let want = before@.with_refresh(i as int, messages_view(msgs@), texts(stamps@));
            lemma_windows_update(before.windows@, self.windows@, i as int);
            assert(self.windows@[i as int]@ =~= want.windows[i as int]);
            assert(self@ =~= want);
            lemma_window_wf(before@, i as int, want.windows[i as int]);
        }
    }

    /// Adds messages given newest first to window `i`, but for those that show
    /// nothing or were seen lately.
    pub fn refresh_history(&mut self, i: usize, msgs: &Vec<Message>)
        requires
            old(self).wf(),
            i < old(self)@.windows.len(),
        ensures
            final(self).wf(),
            exists|stamps: Seq<Seq<char>>|
                stamps_for(stamps, messages_view(msgs@)) && final(self)@ == #[trigger] old(
                    self,
                )@.with_refresh(i as int, messages_view(msgs@), stamps),
    {
        let stamps = times_of(msgs);
        self.show_refresh(i, msgs, &stamps);
    }
}

} // verus!
