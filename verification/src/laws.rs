//! What the client promises as a whole: laws that relate several of its steps, and in
//! modules of their own those of its parts.
use vstd::arithmetic::div_mod::{lemma_add_mod_noop, lemma_mod_twice, lemma_small_mod};
use vstd::prelude::*;
use crate::action::{read_in, ActionView, AfterView, SendKind};
use crate::app::{
    capped, chat_line, first_window, in_chat, lemma_first_window, lemma_first_window_is, named_like,
    own_line, scrollback_is_bounded, window_of, AppView, EntryView, LineView, TabView,
    WindowActivity, WindowView, SCROLLBACK,
};
use crate::chats::next_count;
use crate::command::{
    command_of, msg_takes_its_argument, plain_lines_are_said, win_takes_a_number, CommandView,
    OpenKind,
};
use crate::complete::{chat_names, mention_of, nicks_like, offered};
use crate::dispatch::{chat_list, tail_bytes};
use crate::event::{left_of, right_of};
use crate::history::{refreshed, refreshed_by, seen_lately, MessageView, RECENT};
use crate::order::{
    dedup_keeps_names, dedup_of, in_order, name_le, sort_of, sorting_is_stable, spelled,
};
use crate::peer::PeerView;
use crate::reply::OutcomeView;
use crate::text::{
    byte_len_of, decimal_of, has_infix, has_prefix, is_white, lemma_bytes_concat, lemma_filter_all,
    lemma_filter_has, lemma_trim_clean, lower_word, lowercase, trim, trim_start,
};

pub mod commands;
pub mod completion;
pub mod files;
pub mod keys;
pub mod messages;
pub mod models;
pub mod replies;
pub mod screen;
pub mod steps;
pub mod texts;

verus! {

// ── Saying and messaging ─────────────────────────────────────────────────────

/// A plain line is sent to the chat in front as it is, but for white space around
/// it, and changes nothing yet; a line that starts with a slash is never sent as
/// something said.
pub proof fn plain_lines_go_to_the_front(v: AppView, line: Seq<char>, ts: Seq<char>)
    requires
        trim(line).len() > 0,
    ensures
        ({
            let step = v.ran(command_of(line), ts);
            &&& trim(line)[0] != '/' ==> (v.active matches Some(i) ==> step.app == v && step.action
                == (ActionView::Send {
                win: i,
                peer: v.windows[i as int].peer,
                text: trim(line),
                kind: SendKind::Say,
            }))
            &&& trim(line)[0] == '/' ==> !(step.action matches ActionView::Send { kind, .. } && kind
                == SendKind::Say)
        }),
{
    plain_lines_are_said(line);
}

proof fn lemma_tail_is_rest(name: Seq<char>, rest: Seq<char>)
    ensures
        tail_bytes(name + rest, byte_len_of(name)) == rest,
{
    lemma_bytes_concat(name, rest);
    let all = vstd::utf8::encode_utf8(name + rest);
    assert(all.subrange(byte_len_of(name) as int, all.len() as int) =~= vstd::utf8::encode_utf8(
        rest,
    ));
    vstd::utf8::encode_utf8_decode_utf8(rest);
}

/// Messaging a known chat by its name opens its window, and whatever of its past
/// can be read in, the message is then sent to that chat as it was written. This
/// is where the name is the longest known one that the line goes on with, and is
/// as long in lower case, counted in bytes.
pub proof fn messages_go_to_the_chat_named(
    v: AppView,
    name: Seq<char>,
    msg: Seq<char>,
    ts: Seq<char>,
    past: Option<Seq<MessageView>>,
    stamps: Seq<Seq<char>>,
    later: Seq<char>,
)
    requires
        v.wf(),
        name.len() > 0,
        !is_white(name[0]),
        msg.len() > 0,
        !is_white(msg[0]),
        !is_white(msg.last()),
        v.best_key(name + " "@ + msg) == Some(lowercase(name)),
        byte_len_of(lowercase(name)) == byte_len_of(name),
    ensures
        ({
            let cmd = command_of("/msg "@ + (name + " "@ + msg));
            let peer = v.all_chats[lowercase(name)];
            let win = v.focus_index(peer);
            let step = v.ran(cmd, ts);
            &&& v.runnable(cmd)
            &&& step.app.active == Some(win)
            &&& step.action == read_in(win, AfterView::Send { peer, text: msg })
            &&& step.app.history_read(
                win,
                past,
                stamps,
                AfterView::Send { peer, text: msg },
                later,
            ).action == (ActionView::Send { win, peer, text: msg, kind: SendKind::Message })
        }),
{
    reveal_strlit(" ");
    let rest = name + " "@ + msg;
    assert(rest.last() == msg.last());
    msg_takes_its_argument(rest);
    assert(rest =~= name + (" "@ + msg));
    lemma_bytes_concat(name, " "@ + msg);
    lemma_tail_is_rest(name, " "@ + msg);
    let tail = " "@ + msg;
    assert(tail.drop_first() =~= msg);
    assert(is_white(tail[0]));
    assert(trim_start(tail) == trim_start(msg));
    lemma_trim_clean(msg);
}

/// A command that names a known chat puts the window of that chat in front, looked
/// at, whether it was open or not; and a slap says who is slapped.
pub proof fn chats_named_come_to_the_front(
    v: AppView,
    kind: OpenKind,
    rest: Seq<char>,
    ts: Seq<char>,
)
    requires
        v.wf(),
        v.windows.len() < usize::MAX,
        v.best_key(rest) is Some,
    ensures
        ({
            let peer = v.all_chats[v.best_key(rest)->0];
            let step = v.ran(CommandView::Open { kind, rest }, ts);
            let win = v.focus_index(peer);
            let w = step.app.windows[win as int];
            &&& step.app.active == Some(win)
            &&& win < step.app.windows.len()
            &&& w.peer.id == peer.id
            &&& w.unread == 0
            &&& w.activity == WindowActivity::Quiet
            &&& kind == OpenKind::Trout ==> step.action == (ActionView::Send {
                win,
                peer,
                text: "* slaps "@ + w.name + " around a bit with a large trout *"@,
                kind: SendKind::Trout,
            })
        }),
{
    let peer = v.all_chats[v.best_key(rest)->0];
    lemma_first_window(v.windows, in_chat(peer.id));
}

/// A message that was said or sent to a chat by its name, and then comes back as a
/// message of the user, is not shown twice.
pub proof fn own_messages_are_not_doubled(
    v: AppView,
    win: usize,
    text: Seq<char>,
    kind: SendKind,
    ts: Seq<char>,
    later: Seq<char>,
)
    requires
        win < v.windows.len(),
        kind == SendKind::Say || kind == SendKind::Message,
    ensures
        ({
            let sent = v.sending_done(win, text, kind, OutcomeView::Sent, ts).app;
            sent.echoed(win as int, later, text) == sent
        }),
{
}

/// A message of the user that was read in does not keep a new one of the same text
/// from being shown.
pub proof fn lines_read_in_hide_no_message(
    v: AppView,
    i: int,
    ts: Seq<char>,
    text: Seq<char>,
)
    requires
        0 <= i < v.windows.len(),
        v.windows[i].lines.len() > 0,
        v.windows[i].lines.last().read_in,
    ensures
        v.echoed(i, ts, text).windows[i].lines.last() == own_line(ts, text),
{
    scrollback_is_bounded(v.windows[i].lines, own_line(ts, text));
}

// ── Windows ──────────────────────────────────────────────────────────────────

/// The chats of windows.
pub open spec fn chats_of(ws: Seq<WindowView>) -> Seq<PeerView> {
    ws.map_values(|w: WindowView| w.peer)
}

/// The command to switch windows puts the window of its number in front, looked
/// at; number 1 is the status window.
pub proof fn win_puts_its_window_in_front(v: AppView, n: usize, ts: Seq<char>)
    requires
        v.wf(),
    ensures
        ({
            let after = v.ran(command_of("/win "@ + decimal_of(n as nat)), ts).app;
            &&& n == 1 ==> after.active is None
            &&& 2 <= n < v.windows.len() + 2 ==> {
                &&& after.active == Some((n - 2) as usize)
                &&& after.windows[n - 2].unread == 0
                &&& after.windows[n - 2].activity == WindowActivity::Quiet
            }
            &&& chats_of(after.windows) == chats_of(v.windows)
        }),
{
    win_takes_a_number(n);
    let after = v.ran(command_of("/win "@ + decimal_of(n as nat)), ts).app;
    assert(chats_of(after.windows) =~= chats_of(v.windows));
}

proof fn lemma_close_command()
    ensures
        command_of("/close"@) == CommandView::Close,
{
    reveal_strlit("/close");
    reveal_strlit("/quit");
    reveal_strlit("/quit ");
    reveal_strlit("/win ");
    reveal_strlit("/screen ");
    reveal_strlit("/win");
    reveal_strlit("/screen");
    let line = "/close"@;
    lemma_trim_clean(line);
    assert(line[1] == 'c');
    assert("/quit"@[1] == 'q');
    assert("/win"@[1] == 'w');
    assert("/screen"@[1] == 's');
    assert(line.take(6) =~= line);
    assert(line.skip(6) =~= Seq::empty());
    lemma_trim_clean(Seq::<char>::empty());
}

/// The command to close a window closes the one in front, and no other.
pub proof fn close_closes_the_front(v: AppView, ts: Seq<char>)
    requires
        v.wf(),
        v.active is Some,
    ensures
        ({
            let after = v.ran(command_of("/close"@), ts).app;
            chats_of(after.windows) == chats_of(v.windows).remove(v.active->0 as int)
        }),
{
    lemma_close_command();
    let i = v.active->0 as int;
    let after = v.ran(command_of("/close"@), ts).app;
    assert(chats_of(after.windows) =~= chats_of(v.windows).remove(i));
}

/// Closing another window than the one in front leaves the one in front there,
/// whatever the other one's place.
pub proof fn closing_another_keeps_the_front(v: AppView, i: int, ts: Seq<char>)
    requires
        v.wf(),
        0 <= i < v.windows.len(),
        v.active != Some(i as usize),
    ensures
        ({
            let after = v.closed(i, ts).app;
            &&& chats_of(after.windows) == chats_of(v.windows).remove(i)
            &&& match (v.active, after.active) {
                (Some(a), Some(b)) => b < after.windows.len() && after.windows[b as int].peer
                    == v.windows[a as int].peer,
                (None, None) => true,
                _ => false,
            }
        }),
{
    let after = v.closed(i, ts).app;
    assert(chats_of(after.windows) =~= chats_of(v.windows).remove(i));
}

/// A digit with the Alt key does what the command to switch windows does with that
/// number, where there is such a window.
pub proof fn alt_digits_switch_windows(v: AppView, digit: usize, ts: Seq<char>)
    requires
        digit == 1 || 2 <= digit < v.windows.len() + 2,
    ensures
        v.jumped(digit as nat, ts) == v.ran(CommandView::Switch { number: digit }, ts),
{
}

/// Going one window to the left and then one to the right, or the other way round,
/// comes back to the same window.
pub proof fn left_and_right_undo_each_other(v: AppView)
    requires
        v.wf(),
    ensures
        right_of(left_of(v.active, v.windows.len()), v.windows.len()) == v.active,
        left_of(right_of(v.active, v.windows.len()), v.windows.len()) == v.active,
{
}

/// Erasing takes back what was typed.
pub proof fn erasing_undoes_typing(v: AppView, ch: char)
    ensures
        v.typed(ch).erased() == (AppView { tab: None, ..v }),
{
    assert(v.input.push(ch).drop_last() =~= v.input);
}

// ── Messages that come in ────────────────────────────────────────────────────

/// A message that comes in is the last line of exactly one window, which is that
/// of its chat, or the first one that is named like its sender, or a new one at
/// the end. No other window changes and the window in front stays there. Unless
/// it is in front, the window counts the message, and its mark is raised, never
/// lowered, to what the message calls for.
pub proof fn incoming_messages_are_shown(
    v: AppView,
    peer: PeerView,
    ts: Seq<char>,
    nick: Seq<char>,
    text: Seq<char>,
    highlight: bool,
)
    requires
        v.wf(),
        v.windows.len() < usize::MAX,
    ensures
        ({
            let after = v.with_incoming(peer, ts, nick, text, highlight);
            let n = v.windows.len();
            let i = match v.incoming_window(peer.id, nick) {
                Some(i) => i as int,
                None => n as int,
            };
            let level = if highlight {
                WindowActivity::Highlight
            } else {
                WindowActivity::Text
            };
            &&& after.active == v.active
            &&& after.windows.len() == if i < n {
                n
            } else {
                n + 1
            }
            &&& after.windows[i].lines.last() == chat_line(ts, nick, text, highlight)
            &&& forall|j: int| 0 <= j < n && j != i ==> #[trigger] after.windows[j] == v.windows[j]
            &&& i == n ==> after.windows[i].peer == peer && after.windows[i].unread == 1
            &&& i < n && v.active != Some(i as usize) ==> {
                &&& after.windows[i].unread == next_count(v.windows[i].unread)
                &&& after.windows[i].activity.level() >= level.level()
                &&& after.windows[i].activity.level() >= v.windows[i].activity.level()
            }
            &&& i < n && v.active == Some(i as usize) ==> {
                &&& after.windows[i].unread == v.windows[i].unread
                &&& after.windows[i].activity == v.windows[i].activity
            }
        }),
{
    let a = v.with_nick(peer.id, nick);
    let line = chat_line(ts, nick, text, highlight);
    lemma_first_window(v.windows, in_chat(peer.id));
    lemma_first_window(a.windows, in_chat(peer.id));
    lemma_first_window(v.windows, named_like(nick));
    lemma_first_window(a.windows, named_like(nick));
    let p = in_chat(peer.id);
    match window_of(v.windows, peer.id) {
        Some(i) => {
            assert(p(v.windows[i as int]));
            assert forall|j: int| 0 <= j < v.windows.len() implies p(#[trigger] a.windows[j]) == p(
                v.windows[j],
            ) by {}
            lemma_first_window_is(a.windows, p, Some(i));
            scrollback_is_bounded(a.windows[i as int].lines, line);
        },
        None => {
            assert(a == v);
            match first_window(v.windows, named_like(nick)) {
                Some(i) => {
                    scrollback_is_bounded(v.windows[i as int].lines, line);
                },
                None => {
                    scrollback_is_bounded(Seq::empty(), line);
                },
            }
        },
    }
}

proof fn lemma_capped_twice(s: Seq<LineView>, l: LineView)
    ensures
        capped(capped(s).push(l)) == capped(s.push(l)),
{
    if s.len() > SCROLLBACK {
        assert(capped(s).push(l).skip(1) =~= s.push(l).skip(s.len() + 1 - SCROLLBACK));
    }
}

/// Bringing a window up to date only adds lines behind those that are there, one
/// for a message at most; the oldest lines give way beyond the limit.
pub proof fn refreshing_only_adds(
    lines: Seq<LineView>,
    msgs: Seq<MessageView>,
    stamps: Seq<Seq<char>>,
) -> (added: Seq<LineView>)
    requires
        lines.len() <= SCROLLBACK,
    ensures
        added.len() <= msgs.len(),
        refreshed(lines, msgs, stamps) == capped(lines + added),
    decreases msgs.len(),
{
    if msgs.len() == 0 {
        assert(lines + Seq::<LineView>::empty() =~= lines);
        Seq::empty()
    } else {
        let before = refreshing_only_adds(lines, msgs.drop_first(), stamps.drop_first());
        let mid = refreshed(lines, msgs.drop_first(), stamps.drop_first());
        if refreshed_by(mid, msgs[0], stamps[0]) == mid {
            before
        } else {
            let text = msgs[0].shown()->0;
            let l = msgs[0].line(stamps[0], text);
            lemma_capped_twice(lines + before, l);
            assert((lines + before).push(l) =~= lines + before.push(l));
            before.push(l)
        }
    }
}

proof fn lemma_refreshed_holds(
    lines: Seq<LineView>,
    msgs: Seq<MessageView>,
    stamps: Seq<Seq<char>>,
    k: int,
)
    requires
        lines.len() + msgs.len() <= RECENT,
        stamps.len() == msgs.len(),
        0 <= k < msgs.len(),
        msgs[k].shown() is Some,
    ensures
        refreshed(lines, msgs, stamps).len() <= lines.len() + msgs.len(),
        seen_lately(refreshed(lines, msgs, stamps), stamps[k], msgs[k].shown()->0),
    decreases msgs.len(),
{
    let mid = refreshed(lines, msgs.drop_first(), stamps.drop_first());
    let after = refreshed(lines, msgs, stamps);
    lemma_refreshed_len(lines, msgs.drop_first(), stamps.drop_first());
    lemma_refreshed_len(lines, msgs, stamps);
    let text = msgs[k].shown()->0;
    if k == 0 {
        if !seen_lately(mid, stamps[0], text) {
            assert(after.last() == msgs[0].line(stamps[0], text));
            assert(after[after.len() - 1].ts == stamps[0]);
        }
    } else {
        lemma_refreshed_holds(lines, msgs.drop_first(), stamps.drop_first(), k - 1);
        assert(seen_lately(mid, stamps[k], text));
        let i = choose|i: int|
            0 <= i < mid.len() && mid.len() - RECENT <= i && (#[trigger] mid[i]).ts == stamps[k]
                && mid[i].text == text;
        assert(after[i] == mid[i]);
    }
}

proof fn lemma_refreshed_len(
    lines: Seq<LineView>,
    msgs: Seq<MessageView>,
    stamps: Seq<Seq<char>>,
)
    requires
        lines.len() + msgs.len() <= RECENT,
        stamps.len() == msgs.len(),
    ensures
        refreshed(lines, msgs, stamps).len() <= lines.len() + msgs.len(),
    decreases msgs.len(),
{
    if msgs.len() > 0 {
        lemma_refreshed_len(lines, msgs.drop_first(), stamps.drop_first());
    }
}

proof fn lemma_nothing_new(lines: Seq<LineView>, msgs: Seq<MessageView>, stamps: Seq<Seq<char>>)
    requires
        stamps.len() == msgs.len(),
        forall|k: int|
            0 <= k < msgs.len() && (#[trigger] msgs[k]).shown() is Some ==> seen_lately(
                lines,
                stamps[k],
                msgs[k].shown()->0,
            ),
    ensures
        refreshed(lines, msgs, stamps) == lines,
    decreases msgs.len(),
{
    if msgs.len() > 0 {
        let rest = msgs.drop_first();
        assert forall|k: int|
            0 <= k < rest.len() && (#[trigger] rest[k]).shown() is Some implies seen_lately(
            lines,
            stamps.drop_first()[k],
            rest[k].shown()->0,
        ) by {
            assert(rest[k] == msgs[k + 1]);
        }
        lemma_nothing_new(lines, rest, stamps.drop_first());
        assert(msgs[0].shown() is Some ==> seen_lately(lines, stamps[0], msgs[0].shown()->0));
    }
}

/// Bringing a window up to date a second time with the same messages changes
/// nothing, where all its lines are still looked at then: no message is shown
/// twice.
pub proof fn refreshing_twice_changes_nothing(
    v: AppView,
    i: int,
    msgs: Seq<MessageView>,
    stamps: Seq<Seq<char>>,
)
    requires
        0 <= i < v.windows.len(),
        v.windows[i].lines.len() + msgs.len() <= RECENT,
        stamps.len() == msgs.len(),
    ensures
        ({
            let lines = v.windows[i].lines;
            refreshed(refreshed(lines, msgs, stamps), msgs, stamps) == refreshed(
                lines,
                msgs,
                stamps,
            )
        }),
        v.with_refresh(i, msgs, stamps).with_refresh(i, msgs, stamps) == v.with_refresh(
            i,
            msgs,
            stamps,
        ),
{
    let lines = v.windows[i].lines;
    let once = refreshed(lines, msgs, stamps);
    assert forall|k: int|
        0 <= k < msgs.len() && (#[trigger] msgs[k]).shown() is Some implies seen_lately(
        once,
        stamps[k],
        msgs[k].shown()->0,
    ) by {
        lemma_refreshed_holds(lines, msgs, stamps, k);
    }
    lemma_nothing_new(once, msgs, stamps);
    let after = v.with_refresh(i, msgs, stamps);
    assert(after.with_refresh(i, msgs, stamps).windows =~= after.windows);
}

// ── Completion ───────────────────────────────────────────────────────────────

proof fn lemma_sort_keeps(s: Seq<Seq<char>>, x: Seq<char>)
    ensures
        sort_of(s).contains(x) <==> s.contains(x),
{
    sorting_is_stable(s);
    let k = lowercase(x);
    let p = |y: Seq<char>| lowercase(y) == k;
    lemma_filter_has(s, p, x);
    lemma_filter_has(sort_of(s), p, x);
    assert(spelled(sort_of(s), k) == spelled(s, k));
}

proof fn lemma_dedup_in_order(s: Seq<Seq<char>>)
    requires
        in_order(s),
    ensures
        in_order(dedup_of(s)),
    decreases s.len(),
{
    if s.len() >= 2 {
        let t = s.drop_last();
        assert forall|i: int, j: int| 0 <= i <= j < t.len() implies name_le(
            #[trigger] t[i],
            #[trigger] t[j],
        ) by {
            assert(name_le(s[i], s[j]));
        }
        lemma_dedup_in_order(t);
        dedup_keeps_names(t);
        let d = dedup_of(s);
        let e = dedup_of(t);
        assert forall|i: int, j: int| 0 <= i <= j < d.len() implies name_le(
            #[trigger] d[i],
            #[trigger] d[j],
        ) by {
            if j < e.len() {
                assert(name_le(e[i], e[j]));
            } else if i < e.len() {
                assert(e.contains(e[i]));
                let m = choose|m: int| 0 <= m < t.len() && t[m] == e[i];
                assert(name_le(s[m], s[s.len() - 1]));
            } else {
                assert(name_le(s[s.len() - 1], s[s.len() - 1]));
            }
        }
    }
}

/// What a completion offers is what was found: every name, no other, in
/// alphabetical order without regard to case, and no two in a row alike.
pub proof fn completions_are_the_names_found(found: Seq<Seq<char>>)
    ensures
        in_order(offered(found)),
        forall|x: Seq<char>| #[trigger] offered(found).contains(x) <==> found.contains(x),
        forall|i: int|
            0 <= i < offered(found).len() - 1 ==> #[trigger] offered(found)[i] != offered(found)[i
                + 1],
{
    sorting_is_stable(found);
    lemma_dedup_in_order(sort_of(found));
    dedup_keeps_names(sort_of(found));
    assert forall|x: Seq<char>| #[trigger] offered(found).contains(x) <==> found.contains(x) by {
        lemma_sort_keeps(found, x);
        assert(dedup_of(sort_of(found)).contains(x) <==> sort_of(found).contains(x));
    }
}

/// The chats that a completion offers are those whose names start with what was
/// typed, without regard to case.
pub proof fn completions_start_with_the_word(chats: Seq<EntryView>, word: Seq<char>, x: Seq<char>)
    ensures
        offered(chat_names(chats, lower_word(word))).contains(x) <==> exists|i: int|
            0 <= i < chats.len() && has_prefix((#[trigger] chats[i]).key, lower_word(word))
                && chats[i].peer.label() == x,
{
    let lc = lower_word(word);
    let keep = |e: EntryView| has_prefix(e.key, lc);
    let show = |e: EntryView| e.peer.label();
    let kept = chats.filter(keep);
    let names = chat_names(chats, lc);
    assert(names == kept.map_values(show));
    completions_are_the_names_found(names);
    assert(offered(names).contains(x) <==> names.contains(x));
    if names.contains(x) {
        let j = choose|j: int| 0 <= j < names.len() && names[j] == x;
        lemma_filter_has(chats, keep, kept[j]);
        assert(kept.contains(kept[j]));
        let i = choose|i: int| 0 <= i < chats.len() && chats[i] == kept[j];
        assert(chats[i].peer.label() == x);
    }
    if exists|i: int|
        0 <= i < chats.len() && has_prefix((#[trigger] chats[i]).key, lc) && chats[i].peer.label()
            == x {
        let i = choose|i: int|
            0 <= i < chats.len() && has_prefix((#[trigger] chats[i]).key, lc)
                && chats[i].peer.label() == x;
        lemma_filter_has(chats, keep, chats[i]);
        assert(chats.contains(chats[i]));
        let j = choose|j: int| 0 <= j < kept.len() && kept[j] == chats[i];
        assert(names[j] == x);
    }
}

/// The nicks that a completion offers are those that start with what was typed,
/// without regard to case.
pub proof fn mentions_start_with_the_word(
    nicks: Seq<Seq<char>>,
    word: Seq<char>,
    x: Seq<char>,
)
    ensures
        offered(nicks_like(nicks, lower_word(word))).contains(x) <==> nicks.contains(x) && has_prefix(
            lowercase(x),
            lower_word(word),
        ),
{
    let keep = |n: Seq<char>| has_prefix(lowercase(n), lower_word(word));
    completions_are_the_names_found(nicks_like(nicks, lower_word(word)));
    lemma_filter_has(nicks, keep, x);
}

/// An empty word offers every chat, or every nick.
pub proof fn empty_words_offer_all(chats: Seq<EntryView>, nicks: Seq<Seq<char>>)
    ensures
        chat_names(chats, lower_word(Seq::empty())) == chats.map_values(
            |e: EntryView| e.peer.label(),
        ),
        nicks_like(nicks, lower_word(Seq::empty())) == nicks,
{
    let none = Seq::<char>::empty();
    let keep_chat = |e: EntryView| has_prefix(e.key, none);
    let keep_nick = |n: Seq<char>| has_prefix(lowercase(n), none);
    assert forall|i: int| 0 <= i < chats.len() implies keep_chat(#[trigger] chats[i]) by {
        assert(chats[i].key.take(0) =~= none);
    }
    assert forall|i: int| 0 <= i < nicks.len() implies keep_nick(#[trigger] nicks[i]) by {
        assert(lowercase(nicks[i]).take(0) =~= none);
    }
    lemma_filter_all(chats, keep_chat);
    lemma_filter_all(nicks, keep_nick);
}

/// The bare command to list chats lists every chat.
pub proof fn bare_list_lists_every_chat(chats: Seq<EntryView>)
    ensures
        chat_list(chats, Seq::empty()) == seq!["-!- Channel List:"@] + chats.map_values(
            |e: EntryView| "  "@ + e.peer.label(),
        ) + seq!["-!- End of /list"@],
{
    let none = Seq::<char>::empty();
    lemma_filter_all(
        chats,
        |e: EntryView| none.len() == 0 || has_infix(e.key, lowercase(none)),
    );
}

/// Whether the line shows the candidate that a completion in progress points at:
/// behind an at sign in a window of a chat, or as the argument of a command.
pub open spec fn shows_candidate(v: AppView, sep: Seq<char>) -> bool {
    v.tab matches Some(t) && {
        &&& t.idx < t.candidates.len()
        &&& v.input == t.cmd_prefix + sep + t.candidates[t.idx as int]
        &&& (sep == "@"@ && v.active is Some) || sep.len() == 0
    }
}

/// A further Tab steps on to the next candidate, and to the first one behind the
/// last; the candidates stay.
pub proof fn tab_steps_to_the_next(v: AppView, sep: Seq<char>)
    requires
        shows_candidate(v, sep),
        v.tab->0.candidates.len() <= usize::MAX,
    ensures
        ({
            let t = v.tab->0;
            let next = ((t.idx + 1) % t.candidates.len() as int) as usize;
            &&& v.tabbed().input == t.cmd_prefix + sep + t.candidates[next as int]
            &&& v.tabbed().tab == Some(TabView { idx: next, ..t })
            &&& shows_candidate(v.tabbed(), sep)
        }),
{
    let t = v.tab->0;
    let name = t.candidates[t.idx as int];
    reveal_strlit("@");
    if sep.len() == 0 {
        assert(sep =~= Seq::empty());
        assert(v.input =~= t.cmd_prefix + name);
        assert(v.input.len() != (t.cmd_prefix + "@"@ + name).len());
    }
}

/// The first Tab that finds a name shows a candidate, from which further ones step
/// on.
pub proof fn first_tab_shows_a_candidate(v: AppView)
    requires
        v.tab is None,
        v.tabbed().tab is Some,
    ensures
        shows_candidate(
            v.tabbed(),
            if mention_of(v.input) is Some {
                "@"@
            } else {
                Seq::empty()
            },
        ),
{
}

/// The state after `k` Tabs.
pub open spec fn tabbed_times(v: AppView, k: nat) -> AppView
    decreases k,
{
    if k == 0 {
        v
    } else {
        tabbed_times(v, (k - 1) as nat).tabbed()
    }
}

/// Tab goes round: `k` further Tabs show the candidate `k` places on, counted round
/// from the last to the first.
pub proof fn tab_goes_round(v: AppView, sep: Seq<char>, k: nat)
    requires
        shows_candidate(v, sep),
        v.tab->0.candidates.len() <= usize::MAX,
    ensures
        ({
            let t = v.tab->0;
            let idx = ((t.idx + k) % t.candidates.len() as int) as usize;
            &&& tabbed_times(v, k).input == t.cmd_prefix + sep + t.candidates[idx as int]
            &&& tabbed_times(v, k).tab == Some(TabView { idx, ..t })
            &&& shows_candidate(tabbed_times(v, k), sep)
        }),
    decreases k,
{
    let t = v.tab->0;
    let n = t.candidates.len() as int;
    if k == 0 {
        lemma_small_mod(t.idx as nat, n as nat);
    } else {
        tab_goes_round(v, sep, (k - 1) as nat);
        let w = tabbed_times(v, (k - 1) as nat);
        tab_steps_to_the_next(w, sep);
        lemma_add_mod_noop(t.idx + k - 1, 1, n);
        lemma_mod_twice(t.idx + k - 1, n);
        lemma_add_mod_noop((t.idx + k - 1) % n, 1, n);
    }
}

} // verus!
