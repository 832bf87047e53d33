//! What is promised of the steps of the client: what commands, keys and answers do
//! to the windows, and what they ask for.
use vstd::prelude::*;
use vstd::utf8::{encode_utf8, is_char_boundary};
use crate::action::{
    ActionView, AfterView, SendKind, HISTORY_LIMIT, NAMES_LIMIT, REFRESH_LIMIT, SEARCH_LIMIT,
};
use crate::app::{
    in_chat, lemma_first_window_is, scrollback_is_bounded, window_of, AppView, EntryView, LineView,
    WindowActivity, WindowView, SCROLLBACK,
};
use crate::chats::DIALOG_LIMIT;
use crate::command::{command_of, CommandView, OpenKind};
use crate::dispatch::{chat_list, help_lines, tail_bytes, whois_line, Step};
use crate::history::RECENT;
use crate::laws::commands::join_takes_its_argument;
use crate::laws::messages::with_one_more;
use crate::peer::{best_match_is_longest, PeerView};
use crate::text::{
    byte_len_of, decimal_int, decimal_of, has_infix, has_prefix, is_white, lemma_bytes_concat,
    lowercase, trim,
};

verus! {

// ── Vocabulary ───────────────────────────────────────────────────────────────

/// A line of the client itself.
pub open spec fn note(ts: Seq<char>, text: Seq<char>) -> LineView {
    LineView {
        ts,
        prefix: "-!-"@,
        text,
        is_sys: true,
        is_highlight: false,
        nick: None,
        read_in: false,
    }
}

/// A state with a line more in window `i`.
pub open spec fn line_in(v: AppView, i: int, l: LineView) -> AppView {
    AppView {
        windows: v.windows.update(
            i,
            WindowView { lines: with_one_more(v.windows[i].lines, l), ..v.windows[i] },
        ),
        ..v
    }
}

/// A state with a line of the client more in the status window.
pub open spec fn told_status(v: AppView, ts: Seq<char>, text: Seq<char>) -> AppView {
    AppView { status_lines: with_one_more(v.status_lines, note(ts, text)), ..v }
}

/// A state with a line of the client more in the window in front.
pub open spec fn told(v: AppView, ts: Seq<char>, text: Seq<char>) -> AppView {
    match v.active {
        Some(i) => line_in(v, i as int, note(ts, text)),
        None => told_status(v, ts, text),
    }
}

/// A state with lines of the client more in the window in front, in their order.
pub open spec fn told_all(v: AppView, ts: Seq<char>, msgs: Seq<Seq<char>>) -> AppView
    decreases msgs.len(),
{
    if msgs.len() == 0 {
        v
    } else {
        told(told_all(v, ts, msgs.drop_last()), ts, msgs.last())
    }
}

/// A window that has been looked at.
pub open spec fn looked_at(w: WindowView) -> WindowView {
    WindowView { unread: 0, activity: WindowActivity::Quiet, ..w }
}

/// A state with window `i` in front, looked at.
pub open spec fn in_front(v: AppView, i: int) -> AppView {
    AppView {
        active: Some(i as usize),
        windows: v.windows.update(i, looked_at(v.windows[i])),
        ..v
    }
}

/// The name to show of a chat.
pub open spec fn shown_name(peer: PeerView) -> Seq<char> {
    match peer.name {
        Some(name) => name,
        None => "Unknown"@,
    }
}

/// Whether a text names the chat that is known under `k`: `k` is the longest known
/// name that the text starts with, without regard to case.
pub open spec fn names_chat(v: AppView, text: Seq<char>, k: Seq<char>) -> bool {
    &&& v.all_chats.dom().contains(k)
    &&& k.is_prefix_of(lowercase(text))
    &&& forall|o: Seq<char>| #[trigger]
        v.all_chats.dom().contains(o) && o.is_prefix_of(lowercase(text)) ==> o.len() <= k.len()
}

/// Whether a text names no known chat.
pub open spec fn names_no_chat(v: AppView, text: Seq<char>) -> bool {
    forall|o: Seq<char>| #[trigger]
        v.all_chats.dom().contains(o) ==> !o.is_prefix_of(lowercase(text))
}

/// Whether a chat has no window.
pub open spec fn has_no_window(v: AppView, id: i64) -> bool {
    forall|j: int| 0 <= j < v.windows.len() ==> (#[trigger] v.windows[j]).peer.id != id
}

// ── Lines of the client ──────────────────────────────────────────────────────

/// A line of the client goes to the window in front, or to the status window where
/// that is in front, and changes nothing else.
pub proof fn notes_go_to_the_front(v: AppView, ts: Seq<char>, text: Seq<char>)
    ensures
        v.with_sys(ts, text) == told(v, ts, text),
        v.with_status(ts, text) == told_status(v, ts, text),
{
    match v.active {
        Some(i) => {
            scrollback_is_bounded(v.windows[i as int].lines, note(ts, text));
        },
        None => {},
    }
    scrollback_is_bounded(v.status_lines, note(ts, text));
}

/// Lines of the client go to the window in front, in their order.
pub proof fn lemma_told_all(v: AppView, ts: Seq<char>, msgs: Seq<Seq<char>>)
    ensures
        v.with_sys_all(ts, msgs) == told_all(v, ts, msgs),
    decreases msgs.len(),
{
    if msgs.len() > 0 {
        lemma_told_all(v, ts, msgs.drop_last());
        notes_go_to_the_front(told_all(v, ts, msgs.drop_last()), ts, msgs.last());
    }
}

proof fn lemma_prefix(s: Seq<char>, p: Seq<char>)
    ensures
        has_prefix(s, p) <==> p.is_prefix_of(s),
{
    if p.len() <= s.len() {
        assert(s.take(p.len() as int) =~= s.subrange(0, p.len() as int));
    }
}

proof fn lemma_named(v: AppView, text: Seq<char>, k: Seq<char>)
    requires
        names_chat(v, text, k),
    ensures
        v.best_key(text) == Some(k),
{
    let lc = lowercase(text);
    best_match_is_longest(v.all_chats, lc);
    lemma_prefix(lc, k);
    assert forall|o: Seq<char>| #[trigger]
        v.all_chats.dom().contains(o) && has_prefix(lc, o) implies o.len() <= k.len() by {
        lemma_prefix(lc, o);
    }
}

proof fn lemma_unnamed(v: AppView, text: Seq<char>)
    requires
        names_no_chat(v, text),
    ensures
        v.best_key(text) is None,
{
    let lc = lowercase(text);
    best_match_is_longest(v.all_chats, lc);
    assert forall|o: Seq<char>| #[trigger] v.all_chats.dom().contains(o) implies !has_prefix(
        lc,
        o,
    ) by {
        lemma_prefix(lc, o);
    }
}

proof fn lemma_window(v: AppView, id: i64, i: int)
    requires
        v.wf(),
        0 <= i < v.windows.len(),
        v.windows[i].peer.id == id,
    ensures
        window_of(v.windows, id) == Some(i as usize),
{
    let p = in_chat(id);
    assert forall|j: int| 0 <= j < i implies !p(#[trigger] v.windows[j]) by {
        assert(v.windows[j].peer.id != v.windows[i].peer.id);
    }
    lemma_first_window_is(v.windows, p, Some(i as usize));
}

proof fn lemma_no_window(v: AppView, id: i64)
    requires
        v.wf(),
        has_no_window(v, id),
    ensures
        window_of(v.windows, id) is None,
{
    lemma_first_window_is(v.windows, in_chat(id), None);
}

// ── Opening chats ────────────────────────────────────────────────────────────

/// What opening a chat makes of a state in which its window is in front: a line
/// tells of it, but not of a slap.
pub open spec fn opened_as(
    v: AppView,
    i: int,
    kind: OpenKind,
    peer: PeerView,
    text: Seq<char>,
    ts: Seq<char>,
) -> Step {
    let name = v.windows[i].name;
    match kind {
        OpenKind::Trout => Step {
            app: v,
            action: ActionView::Send {
                win: i as usize,
                peer,
                text: "* slaps "@ + name + " around a bit with a large trout *"@,
                kind: SendKind::Trout,
            },
        },
        OpenKind::Message => if text.len() > 0 {
            Step {
                app: told(v, ts, "-!- Messaging: "@ + name),
                action: ActionView::LoadHistory {
                    win: i as usize,
                    limit: 100,
                    next: AfterView::Send { peer, text },
                },
            }
        } else {
            Step {
                app: told(v, ts, "-!- Joining: "@ + name),
                action: ActionView::LoadHistory {
                    win: i as usize,
                    limit: 100,
                    next: AfterView::Save,
                },
            }
        },
        OpenKind::Join => Step {
            app: told(v, ts, "-!- Joining: "@ + name),
            action: ActionView::LoadHistory { win: i as usize, limit: 100, next: AfterView::Save },
        },
    }
}

proof fn lemma_tail(name: Seq<char>, tail: Seq<char>, k: Seq<char>)
    requires
        byte_len_of(k) == byte_len_of(name),
    ensures
        tail_bytes(name + tail, byte_len_of(k)) == tail,
{
    lemma_bytes_concat(name, tail);
    let all = vstd::utf8::encode_utf8(name + tail);
    assert(all.subrange(byte_len_of(name) as int, all.len() as int) =~= vstd::utf8::encode_utf8(
        tail,
    ));
    vstd::utf8::encode_utf8_decode_utf8(tail);
}

/// A command that names a chat with a window puts that very window in front, looked
/// at, and leaves the others as they are. What follows the name, which is as long as
/// the known one, counted in bytes, is what is sent.
pub proof fn opening_puts_the_window_in_front(
    v: AppView,
    kind: OpenKind,
    name: Seq<char>,
    tail: Seq<char>,
    k: Seq<char>,
    i: int,
    ts: Seq<char>,
)
    requires
        v.wf(),
        names_chat(v, name + tail, k),
        byte_len_of(k) == byte_len_of(name),
        0 <= i < v.windows.len(),
        v.windows[i].peer.id == v.all_chats[k].id,
    ensures
        ({
            let cmd = CommandView::Open { kind, rest: name + tail };
            &&& v.runnable(cmd)
            &&& v.ran(cmd, ts) == opened_as(
                in_front(v, i),
                i,
                kind,
                v.all_chats[k],
                trim(tail),
                ts,
            )
        }),
{
    lemma_named(v, name + tail, k);
    lemma_window(v, v.all_chats[k].id, i);
    lemma_tail(name, tail, k);
    lemma_bytes_concat(name, tail);
    let w = in_front(v, i);
    notes_go_to_the_front(w, ts, "-!- Joining: "@ + w.windows[i].name);
    notes_go_to_the_front(w, ts, "-!- Messaging: "@ + w.windows[i].name);
}

/// A command that names a chat without a window opens one for it behind all others,
/// under the name of the chat, and puts it in front.
pub proof fn opening_makes_a_window(
    v: AppView,
    kind: OpenKind,
    name: Seq<char>,
    tail: Seq<char>,
    k: Seq<char>,
    ts: Seq<char>,
)
    requires
        v.wf(),
        v.windows.len() < usize::MAX,
        names_chat(v, name + tail, k),
        byte_len_of(k) == byte_len_of(name),
        has_no_window(v, v.all_chats[k].id),
    ensures
        ({
            let cmd = CommandView::Open { kind, rest: name + tail };
            let peer = v.all_chats[k];
            let fresh = WindowView {
                peer,
                name: shown_name(peer),
                unread: 0,
                activity: WindowActivity::Quiet,
                lines: Seq::empty(),
                nicks: Seq::empty(),
            };
            let opened = AppView {
                windows: v.windows.push(fresh),
                active: Some(v.windows.len() as usize),
                ..v
            };
            &&& v.runnable(cmd)
            &&& v.ran(cmd, ts) == opened_as(
                opened,
                v.windows.len() as int,
                kind,
                peer,
                trim(tail),
                ts,
            )
        }),
{
    let peer = v.all_chats[k];
    lemma_named(v, name + tail, k);
    lemma_no_window(v, peer.id);
    lemma_tail(name, tail, k);
    lemma_bytes_concat(name, tail);
    let n = v.windows.len() as int;
    let fresh = WindowView {
        peer,
        name: shown_name(peer),
        unread: 0,
        activity: WindowActivity::Quiet,
        lines: Seq::empty(),
        nicks: Seq::empty(),
    };
    let opened = AppView {
        windows: v.windows.push(fresh),
        active: Some(v.windows.len() as usize),
        ..v
    };
    assert(v.focused(peer).selected(n).windows =~= opened.windows);
    assert(v.focused(peer).selected(n) =~= opened);
    notes_go_to_the_front(opened, ts, "-!- Joining: "@ + fresh.name);
    notes_go_to_the_front(opened, ts, "-!- Messaging: "@ + fresh.name);
}

/// A command that names no known chat says so, and does nothing else.
pub proof fn unknown_chats_are_not_opened(
    v: AppView,
    kind: OpenKind,
    rest: Seq<char>,
    ts: Seq<char>,
)
    requires
        names_no_chat(v, rest),
    ensures
        v.runnable(CommandView::Open { kind, rest }),
        v.ran(CommandView::Open { kind, rest }, ts) == (Step {
            app: told(v, ts, "-!- No match. /search <n> first."@),
            action: ActionView::Done,
        }),
{
    lemma_unnamed(v, rest);
    notes_go_to_the_front(v, ts, "-!- No match. /search <n> first."@);
}

/// Every command can be run, but for one that names a chat by a text that cannot be
/// cut behind as many bytes as the known name has.
pub proof fn commands_can_be_run(v: AppView, cmd: CommandView, k: Seq<char>)
    ensures
        !(cmd is Open) ==> v.runnable(cmd),
        cmd matches CommandView::Open { rest, .. } ==> {
            &&& names_no_chat(v, rest) ==> v.runnable(cmd)
            &&& names_chat(v, rest, k) ==> (v.runnable(cmd) <==> is_char_boundary(
                encode_utf8(rest),
                encode_utf8(k).len() as int,
            ))
        },
{
    if let CommandView::Open { rest, .. } = cmd {
        if names_no_chat(v, rest) {
            lemma_unnamed(v, rest);
        }
        if names_chat(v, rest, k) {
            lemma_named(v, rest, k);
        }
    }
}

/// Joining a chat by its full name, of however many words, brings the window of that
/// chat to the front, whether it was open or not.
pub proof fn joining_by_the_full_name(v: AppView, name: Seq<char>, ts: Seq<char>)
    requires
        v.wf(),
        v.windows.len() < usize::MAX,
        name.len() > 0,
        !is_white(name[0]),
        !is_white(name.last()),
        v.all_chats.dom().contains(lowercase(name)),
    ensures
        ({
            let step = v.ran(command_of("/join "@ + name), ts);
            let peer = v.all_chats[lowercase(name)];
            &&& step.app.active matches Some(i) && {
                &&& i < step.app.windows.len()
                &&& step.app.windows[i as int].peer.id == peer.id
                &&& step.app.windows[i as int].unread == 0
                &&& step.app.windows[i as int].activity == WindowActivity::Quiet
                &&& step.action == (ActionView::LoadHistory {
                    win: i,
                    limit: 100,
                    next: AfterView::Save,
                })
                &&& forall|j: int|
                    0 <= j < v.windows.len() && j != i ==> #[trigger] step.app.windows[j]
                        == v.windows[j]
            }
            &&& step.app.windows.len() == if has_no_window(v, peer.id) {
                v.windows.len() + 1
            } else {
                v.windows.len()
            }
        }),
{
    join_takes_its_argument(name);
    let k = lowercase(name);
    let peer = v.all_chats[k];
    assert(k =~= k.subrange(0, k.len() as int));
    assert(names_chat(v, name, k));
    lemma_named(v, name, k);
    if has_no_window(v, peer.id) {
        lemma_no_window(v, peer.id);
    } else {
        let i = choose|i: int|
            0 <= i < v.windows.len() && (#[trigger] v.windows[i]).peer.id == peer.id;
        lemma_window(v, peer.id, i);
    }
}

// ── Asking about chats ───────────────────────────────────────────────────────

/// What is told of a chat is its name, its user name where it has one, and its
/// number; of a name that is not known, that it is not.
pub proof fn whois_tells_of_the_chat_named(
    v: AppView,
    target: Seq<char>,
    k: Seq<char>,
    ts: Seq<char>,
)
    ensures
        names_chat(v, target, k) ==> v.ran(CommandView::Whois { target }, ts) == (Step {
            app: told(
                v,
                ts,
                "-!- WHOIS "@ + shown_name(v.all_chats[k]) + " (@"@ + (
                match v.all_chats[k].username {
                    Some(name) => name,
                    None => "none"@,
                }) + ") ID:"@ + decimal_int(v.all_chats[k].id as int),
            ),
            action: ActionView::Done,
        }),
        names_no_chat(v, target) ==> v.ran(CommandView::Whois { target }, ts) == (Step {
            app: told(v, ts, "-!- No such nick: "@ + target),
            action: ActionView::Done,
        }),
{
    if names_chat(v, target, k) {
        lemma_named(v, target, k);
        notes_go_to_the_front(v, ts, whois_line(v.all_chats[k]));
    }
    if names_no_chat(v, target) {
        lemma_unnamed(v, target);
        notes_go_to_the_front(v, ts, "-!- No such nick: "@ + target);
    }
}

/// The members of the chat in front are asked for where no chat is named; they will
/// be the nicks of the window in front.
pub proof fn bare_names_ask_for_the_front(v: AppView, ts: Seq<char>)
    ensures
        v.ran(CommandView::Names { target: Seq::empty() }, ts) == match v.active {
            Some(i) => Step {
                app: told(
                    v,
                    ts,
                    "-!- Fetching names for "@ + shown_name(v.windows[i as int].peer) + "..."@,
                ),
                action: ActionView::FetchNames {
                    peer: v.windows[i as int].peer,
                    window: Some(i),
                },
            },
            None => Step {
                app: told(v, ts, "-!- Cannot find chat for /names"@),
                action: ActionView::Done,
            },
        },
{
    match v.active {
        Some(i) => {
            notes_go_to_the_front(
                v,
                ts,
                "-!- Fetching names for "@ + shown_name(v.windows[i as int].peer) + "..."@,
            );
        },
        None => {
            notes_go_to_the_front(v, ts, "-!- Cannot find chat for /names"@);
        },
    }
}

/// The members of a chat that is named are asked for, for the window of that chat
/// where it has one, whichever window is in front.
pub proof fn names_ask_for_the_chat_named(
    v: AppView,
    target: Seq<char>,
    k: Seq<char>,
    i: int,
    ts: Seq<char>,
)
    requires
        v.wf(),
        target.len() > 0,
    ensures
        ({
            let step = v.ran(CommandView::Names { target }, ts);
            let peer = v.all_chats[k];
            &&& names_chat(v, target, k) ==> step.app == told(
                v,
                ts,
                "-!- Fetching names for "@ + shown_name(peer) + "..."@,
            )
            &&& names_chat(v, target, k) && 0 <= i < v.windows.len() && v.windows[i].peer.id
                == peer.id ==> step.action == (ActionView::FetchNames {
                peer,
                window: Some(i as usize),
            })
            &&& names_chat(v, target, k) && has_no_window(v, peer.id) ==> step.action == (
            ActionView::FetchNames { peer, window: None })
            &&& names_no_chat(v, target) ==> step == (Step {
                app: told(v, ts, "-!- Cannot find chat for /names"@),
                action: ActionView::Done,
            })
        }),
{
    let peer = v.all_chats[k];
    notes_go_to_the_front(v, ts, "-!- Fetching names for "@ + shown_name(peer) + "..."@);
    notes_go_to_the_front(v, ts, "-!- Cannot find chat for /names"@);
    if names_chat(v, target, k) {
        lemma_named(v, target, k);
        if 0 <= i < v.windows.len() && v.windows[i].peer.id == peer.id {
            lemma_window(v, peer.id, i);
        }
        if has_no_window(v, peer.id) {
            lemma_no_window(v, peer.id);
        }
    }
    if names_no_chat(v, target) {
        lemma_unnamed(v, target);
    }
}

/// Whether a text occurs in another.
pub open spec fn occurs_in(p: Seq<char>, s: Seq<char>) -> bool {
    exists|i: int|
        0 <= i <= s.len() - p.len() && #[trigger] s.subrange(i, i + p.len() as int) == p
}

proof fn lemma_occurs(p: Seq<char>, s: Seq<char>)
    ensures
        has_infix(s, p) <==> occurs_in(p, s),
{
    if has_infix(s, p) {
        let i = choose|i: int| 0 <= i <= s.len() - p.len() && #[trigger] has_prefix(s.skip(i), p);
        assert(s.subrange(i, i + p.len() as int) =~= s.skip(i).take(p.len() as int));
    }
    if occurs_in(p, s) {
        let i = choose|i: int|
            0 <= i <= s.len() - p.len() && #[trigger] s.subrange(i, i + p.len() as int) == p;
        assert(s.subrange(i, i + p.len() as int) =~= s.skip(i).take(p.len() as int));
        assert(has_prefix(s.skip(i), p));
    }
}

proof fn lemma_same_filter<T>(s: Seq<T>, p: spec_fn(T) -> bool, q: spec_fn(T) -> bool)
    requires
        forall|i: int| 0 <= i < s.len() ==> p(#[trigger] s[i]) == q(s[i]),
    ensures
        s.filter(p) == s.filter(q),
    decreases s.len(),
{
    reveal(Seq::filter);
    if s.len() > 0 {
        let t = s.drop_last();
        assert forall|i: int| 0 <= i < t.len() implies p(#[trigger] t[i]) == q(t[i]) by {
            assert(t[i] == s[i]);
        }
        lemma_same_filter(t, p, q);
        assert(p(s[s.len() - 1]) == q(s[s.len() - 1]));
    }
}

/// The list of chats has a line for each chat of the directory whose name the query
/// occurs in, without regard to case, in the order in which they became known,
/// between a first and a last line.
pub proof fn chats_are_listed_by_their_names(v: AppView, query: Seq<char>, ts: Seq<char>)
    ensures
        v.ran(CommandView::List { query }, ts) == (Step {
            app: told_all(
                v,
                ts,
                seq!["-!- Channel List:"@] + v.ordered_chats.filter(
                    |e: EntryView| query.len() == 0 || occurs_in(lowercase(query), e.key),
                ).map_values(|e: EntryView| "  "@ + shown_name(e.peer)) + seq![
                    "-!- End of /list"@,
                ],
            ),
            action: ActionView::Done,
        }),
{
    let p = |e: EntryView| query.len() == 0 || has_infix(e.key, lowercase(query));
    let q = |e: EntryView| query.len() == 0 || occurs_in(lowercase(query), e.key);
    let chats = v.ordered_chats;
    assert forall|i: int| 0 <= i < chats.len() implies p(#[trigger] chats[i]) == q(chats[i]) by {
        lemma_occurs(lowercase(query), chats[i].key);
    }
    lemma_same_filter(chats, p, q);
    let kept = chats.filter(q);
    assert(kept.map_values(|e: EntryView| "  "@ + e.peer.label()) =~= kept.map_values(
        |e: EntryView| "  "@ + shown_name(e.peer),
    ));
    lemma_told_all(v, ts, chat_list(chats, query));
}

/// A search is announced and asked for with the words that were typed.
pub proof fn searches_ask_for_the_query(v: AppView, query: Seq<char>, ts: Seq<char>)
    ensures
        v.ran(CommandView::Search { query }, ts) == (Step {
            app: told(v, ts, "-!- Searching '"@ + query + "'..."@),
            action: ActionView::Search { query },
        }),
{
    notes_go_to_the_front(v, ts, "-!- Searching '"@ + query + "'..."@);
}

// ── Talking ──────────────────────────────────────────────────────────────────

/// What is said and what is done goes to the chat of the window in front; in the
/// status window it goes nowhere, and of what is said a line tells that.
pub proof fn talk_goes_to_the_chat_in_front(v: AppView, text: Seq<char>, ts: Seq<char>)
    ensures
        v.active matches Some(i) ==> v.ran(CommandView::Say { text }, ts) == (Step {
            app: v,
            action: ActionView::Send {
                win: i,
                peer: v.windows[i as int].peer,
                text,
                kind: SendKind::Say,
            },
        }),
        v.active matches Some(i) ==> v.ran(CommandView::Me { action: text }, ts) == (Step {
            app: v,
            action: ActionView::Send {
                win: i,
                peer: v.windows[i as int].peer,
                text: "* "@ + text + " *"@,
                kind: SendKind::Me,
            },
        }),
        v.active is None ==> v.ran(CommandView::Say { text }, ts) == (Step {
            app: told(v, ts, "-!- No active window. /join <n> or /win 2"@),
            action: ActionView::Done,
        }),
        v.active is None ==> v.ran(CommandView::Me { action: text }, ts) == (Step {
            app: v,
            action: ActionView::Done,
        }),
{
    notes_go_to_the_front(v, ts, "-!- No active window. /join <n> or /win 2"@);
}

// ── Other commands ───────────────────────────────────────────────────────────

/// The window in front is read in anew on demand, and no other.
pub proof fn reloading_reads_the_front(v: AppView, ts: Seq<char>)
    ensures
        v.ran(CommandView::Reload, ts) == match v.active {
            Some(i) => Step {
                app: told(v, ts, "-!- Reloading "@ + v.windows[i as int].name + "..."@),
                action: ActionView::LoadHistory { win: i, limit: 100, next: AfterView::Reloaded },
            },
            None => Step {
                app: told(v, ts, "-!- No active window."@),
                action: ActionView::Done,
            },
        },
{
    match v.active {
        Some(i) => {
            notes_go_to_the_front(v, ts, "-!- Reloading "@ + v.windows[i as int].name + "..."@);
        },
        None => {
            notes_go_to_the_front(v, ts, "-!- No active window."@);
        },
    }
}

/// Commands that are not known are reported by their word, the one that is not
/// supported says so, an empty line does nothing, and quitting asks to end.
pub proof fn other_commands_only_report(v: AppView, word: Seq<char>, ts: Seq<char>)
    ensures
        v.ran(CommandView::Unknown { word }, ts) == (Step {
            app: told(v, ts, "-!- Unknown command: "@ + word + "  (try /help)"@),
            action: ActionView::Done,
        }),
        v.ran(CommandView::Topic, ts) == (Step {
            app: told(v, ts, "-!- /topic is not supported for standard Telegram chats."@),
            action: ActionView::Done,
        }),
        v.ran(CommandView::Nothing, ts) == (Step { app: v, action: ActionView::Done }),
        v.ran(CommandView::Quit, ts) == (Step { app: v, action: ActionView::Quit }),
{
    notes_go_to_the_front(v, ts, "-!- Unknown command: "@ + word + "  (try /help)"@);
    notes_go_to_the_front(v, ts, "-!- /topic is not supported for standard Telegram chats."@);
}

/// The help has a line for each command.
pub proof fn help_tells_of_the_commands(v: AppView, ts: Seq<char>)
    ensures
        v.ran(CommandView::Help, ts) == (Step {
            app: told_all(v, ts, help_lines()),
            action: ActionView::Done,
        }),
        help_lines().len() == 16,
{
    lemma_told_all(v, ts, help_lines());
}

// ── Windows ──────────────────────────────────────────────────────────────────

/// The list of windows has a line for each window in its order: its number, its
/// name, and a star on the one in front.
pub proof fn windows_are_listed(v: AppView, ts: Seq<char>)
    ensures
        v.ran(CommandView::Windows, ts) == (Step {
            app: told_all(
                v,
                ts,
                seq!["  [1] (status)"@] + Seq::new(
                    v.windows.len(),
                    |i: int|
                        "  ["@ + decimal_of((i + 2) as nat) + (if v.active == Some(i as usize) {
                            "*"@
                        } else {
                            " "@
                        }) + "] "@ + v.windows[i].name,
                ),
            ),
            action: ActionView::Done,
        }),
{
    let mine = seq!["  [1] (status)"@] + Seq::new(
        v.windows.len(),
        |i: int|
            "  ["@ + decimal_of((i + 2) as nat) + (if v.active == Some(i as usize) {
                "*"@
            } else {
                " "@
            }) + "] "@ + v.windows[i].name,
    );
    assert(v.window_list() =~= mine);
    lemma_told_all(v, ts, mine);
}

/// Switching to a window puts it in front, looked at, tells so there, and asks for
/// its past; window 1 is the status window, and where there is no such window
/// nothing changes.
pub proof fn switching_puts_a_window_in_front(v: AppView, number: usize, ts: Seq<char>)
    requires
        number >= 1,
    ensures
        v.ran(CommandView::Switch { number }, ts) == if number == 1 {
            Step {
                app: told_status(
                    AppView { active: None, ..v },
                    ts,
                    "Switched to status window."@,
                ),
                action: ActionView::Save,
            }
        } else if number < v.windows.len() + 2 {
            Step {
                app: told(
                    in_front(v, number - 2),
                    ts,
                    "-!- Now in: "@ + v.windows[number - 2].name,
                ),
                action: ActionView::LoadHistory {
                    win: (number - 2) as usize,
                    limit: 100,
                    next: AfterView::Save,
                },
            }
        } else {
            Step { app: v, action: ActionView::Save }
        },
{
    if number == 1 {
        notes_go_to_the_front(
            AppView { active: None, ..v },
            ts,
            "Switched to status window."@,
        );
    } else if number < v.windows.len() + 2 {
        notes_go_to_the_front(
            in_front(v, number - 2),
            ts,
            "-!- Now in: "@ + v.windows[number - 2].name,
        );
    }
}

/// Closing the window in front takes it away and puts the first of the others in
/// front, with nothing unread, whose past is asked for before the report; where it
/// was the only one, the status window comes in front.
pub proof fn closing_the_front_shows_the_first(v: AppView, i: usize, ts: Seq<char>)
    requires
        v.active == Some(i),
        i < v.windows.len(),
    ensures
        ({
            let rest = v.windows.remove(i as int);
            let name = v.windows[i as int].name;
            v.ran(CommandView::Close, ts) == if rest.len() == 0 {
                Step {
                    app: told_status(
                        AppView { windows: rest, active: None, ..v },
                        ts,
                        "-!- Closed: "@ + name,
                    ),
                    action: ActionView::Save,
                }
            } else {
                Step {
                    app: AppView {
                        windows: rest.update(0, WindowView { unread: 0, ..rest[0] }),
                        active: Some(0),
                        ..v
                    },
                    action: ActionView::LoadHistory {
                        win: 0,
                        limit: 100,
                        next: AfterView::Closed { name },
                    },
                }
            }
        }),
{
    let rest = v.windows.remove(i as int);
    notes_go_to_the_front(
        AppView { windows: rest, active: None, ..v },
        ts,
        "-!- Closed: "@ + v.windows[i as int].name,
    );
}

/// Closing a window by its number, where it is not the one in front, takes it away
/// and tells so in the window in front, which stays there. Where there is no such
/// window, or the status window is in front and none is given, nothing happens.
pub proof fn closing_by_number_closes_that_window(v: AppView, number: usize, ts: Seq<char>)
    requires
        v.wf(),
        number >= 2,
    ensures
        ({
            let i = number - 2;
            let step = v.ran(CommandView::CloseNumber { number }, ts);
            let rest = AppView { windows: v.windows.remove(i), ..v };
            &&& i >= v.windows.len() ==> step == (Step { app: v, action: ActionView::Done })
            &&& i < v.windows.len() && v.active is None ==> step == (Step {
                app: told(rest, ts, "-!- Closed: "@ + v.windows[i].name),
                action: ActionView::Save,
            })
            &&& i < v.windows.len() && (v.active matches Some(a) && a < i) ==> step == (Step {
                app: told(rest, ts, "-!- Closed: "@ + v.windows[i].name),
                action: ActionView::Save,
            })
            &&& i < v.windows.len() && (v.active matches Some(a) && a > i) ==> step == (Step {
                app: told(
                    AppView { active: Some((v.active->0 - 1) as usize), ..rest },
                    ts,
                    "-!- Closed: "@ + v.windows[i].name,
                ),
                action: ActionView::Save,
            })
            &&& i < v.windows.len() && v.active == Some(i as usize) ==> step == v.ran(
                CommandView::Close,
                ts,
            )
        }),
        v.active is None ==> v.ran(CommandView::Close, ts) == (Step {
            app: v,
            action: ActionView::Done,
        }),
{
    let i = number - 2;
    if i < v.windows.len() {
        let rest = AppView { windows: v.windows.remove(i), ..v };
        let report = "-!- Closed: "@ + v.windows[i].name;
        notes_go_to_the_front(rest, ts, report);
        notes_go_to_the_front(AppView { active: None, ..rest }, ts, report);
        if v.active is Some {
            notes_go_to_the_front(
                AppView { active: Some((v.active->0 - 1) as usize), ..rest },
                ts,
                report,
            );
        }
    }
}

/// The numbers below that of the first window of a chat stand for that one, where it
/// is not the status window that is meant.
pub proof fn low_numbers_mean_the_first_window(v: AppView, ts: Seq<char>)
    ensures
        v.windows.len() > 0 ==> v.ran(CommandView::Switch { number: 0 }, ts) == v.ran(
            CommandView::Switch { number: 2 },
            ts,
        ),
        v.ran(CommandView::CloseNumber { number: 0 }, ts) == v.ran(
            CommandView::CloseNumber { number: 2 },
            ts,
        ),
        v.ran(CommandView::CloseNumber { number: 1 }, ts) == v.ran(
            CommandView::CloseNumber { number: 2 },
            ts,
        ),
{
}

/// How much is kept and asked for.
pub proof fn limits_are_fixed()
    ensures
        SCROLLBACK == 2000,
        RECENT == 30,
        HISTORY_LIMIT == 100,
        REFRESH_LIMIT == 20,
        NAMES_LIMIT == 200,
        SEARCH_LIMIT == 10,
        DIALOG_LIMIT == 500,
{
}

} // verus!
