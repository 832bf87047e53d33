//! What is promised of the answers of the outside world.
use vstd::prelude::*;
use crate::action::{ActionView, AfterView, SendKind};
use crate::app::{listed, scrollback_is_bounded, AppView, EntryView, LineView, WindowView};
use crate::dispatch::{found_line, Step};
use crate::history::MessageView;
use crate::laws::messages::spoken;
use crate::laws::steps::{
    lemma_told_all, line_in, notes_go_to_the_front, shown_name, told, told_all, told_status,
};
use crate::order::{in_order, sort_of, sorting_is_stable, spelled};
use crate::peer::PeerView;
use crate::reply::OutcomeView;
use crate::roster::roster_of;
use crate::text::{decimal_of, lowercase};

verus! {

// ── The past of a window ─────────────────────────────────────────────────────

/// The past of a window is read in where it could be fetched, and what was to follow
/// then follows.
pub proof fn readings_go_on_as_asked(
    v: AppView,
    win: usize,
    msgs: Seq<MessageView>,
    stamps: Seq<Seq<char>>,
    next: AfterView,
    ts: Seq<char>,
)
    ensures
        v.history_read(win, Some(msgs), stamps, next, ts) == v.with_history(
            win as int,
            msgs,
            stamps,
        ).history_read(win, None, stamps, next, ts),
        v.history_read(win, None, stamps, next, ts) == match next {
            AfterView::Save => Step { app: v, action: ActionView::Save },
            AfterView::Closed { name } => Step {
                app: told(v, ts, "-!- Closed: "@ + name),
                action: ActionView::Save,
            },
            AfterView::Send { peer, text } => Step {
                app: v,
                action: ActionView::Send { win, peer, text, kind: SendKind::Message },
            },
            AfterView::Reloaded => Step {
                app: told(v, ts, "-!- Done."@),
                action: ActionView::Done,
            },
            AfterView::Restored { count } => Step {
                app: told_status(
                    v,
                    ts,
                    "Restored "@ + decimal_of(count as nat) + " windows from last session."@,
                ),
                action: ActionView::Done,
            },
            AfterView::Echo { ts: sent, text } => {
                let lines = v.windows[win as int].lines;
                Step {
                    app: if lines.len() > 0 && lines.last().prefix == "<You>"@ && lines.last().text
                        == text && !lines.last().is_sys {
                        v
                    } else {
                        line_in(v, win as int, spoken(sent, text, false))
                    },
                    action: ActionView::Save,
                }
            },
        },
{
    match next {
        AfterView::Closed { name } => {
            notes_go_to_the_front(v, ts, "-!- Closed: "@ + name);
        },
        AfterView::Reloaded => {
            notes_go_to_the_front(v, ts, "-!- Done."@);
        },
        AfterView::Restored { count } => {
            notes_go_to_the_front(
                v,
                ts,
                "Restored "@ + decimal_of(count as nat) + " windows from last session."@,
            );
        },
        AfterView::Echo { ts: sent, text } => {
            scrollback_is_bounded(v.windows[win as int].lines, spoken(sent, text, false));
        },
        _ => {},
    }
}

// ── Messages sent ────────────────────────────────────────────────────────────

/// A message that was sent is the last line of the window it was sent from,
/// whichever window is in front by then, and no other window changes: a message as
/// one of the user, an action or a slap as an action.
pub proof fn messages_sent_are_shown_where_they_were_written(
    v: AppView,
    win: usize,
    text: Seq<char>,
    kind: SendKind,
    ts: Seq<char>,
)
    requires
        win < v.windows.len(),
    ensures
        ({
            let lines = v.windows[win as int].lines;
            let line = if kind == SendKind::Say || kind == SendKind::Message {
                spoken(ts, text, false)
            } else {
                LineView {
                    ts,
                    prefix: "***"@,
                    text,
                    is_sys: true,
                    is_highlight: false,
                    nick: None,
                    read_in: false,
                }
            };
            v.sending_done(win, text, kind, OutcomeView::Sent, ts) == (Step {
                app: AppView {
                    windows: v.windows.update(
                        win as int,
                        WindowView { lines: lines.push(line), ..v.windows[win as int] },
                    ),
                    ..v
                },
                action: if kind == SendKind::Trout || kind == SendKind::Message {
                    ActionView::Save
                } else {
                    ActionView::Done
                },
            })
        }),
{
}

/// A message that was not sent is not shown; a line in front tells why, except of an
/// action to a chat that could not be found.
pub proof fn messages_not_sent_are_not_shown(
    v: AppView,
    win: usize,
    text: Seq<char>,
    kind: SendKind,
    error: Seq<char>,
    ts: Seq<char>,
)
    ensures
        v.sending_done(win, text, kind, OutcomeView::Failed { error }, ts) == (Step {
            app: told(v, ts, "-!- Error: "@ + error),
            action: ActionView::Done,
        }),
        v.sending_done(win, text, kind, OutcomeView::Unresolved, ts) == (Step {
            app: if kind == SendKind::Me {
                v
            } else {
                told(v, ts, "-!- Could not resolve peer."@)
            },
            action: ActionView::Done,
        }),
{
    notes_go_to_the_front(v, ts, "-!- Error: "@ + error);
    notes_go_to_the_front(v, ts, "-!- Could not resolve peer."@);
}

// ── Members ──────────────────────────────────────────────────────────────────

/// A state with other nicks in a window, if one is given.
pub open spec fn nicks_in(v: AppView, win: Option<usize>, nicks: Seq<Seq<char>>) -> AppView {
    match win {
        Some(i) => AppView {
            windows: v.windows.update(i as int, WindowView { nicks, ..v.windows[i as int] }),
            ..v
        },
        None => v,
    }
}

/// The members of a chat that were fetched, the first two hundred of them, become the
/// nicks of the window for which they were asked, in alphabetical order and none of
/// them lost, and are listed in front; no other window gets nicks. Where they could
/// not be fetched, nothing changes.
pub proof fn members_become_the_nicks_of_their_window(
    v: AppView,
    peer: PeerView,
    win: Option<usize>,
    names: Seq<Seq<char>>,
    ts: Seq<char>,
)
    requires
        win matches Some(i) ==> i < v.windows.len(),
    ensures
        v.names_shown(peer, win, None, ts) == v,
        exists|nicks: Seq<Seq<char>>|
            {
                let first = if names.len() > 200 {
                    names.take(200)
                } else {
                    names
                };
                &&& in_order(nicks)
                &&& nicks.len() == first.len()
                &&& forall|k: Seq<char>| #[trigger] spelled(nicks, k) == spelled(first, k)
                &&& v.names_shown(peer, win, Some(names), ts) == #[trigger] told_all(
                    nicks_in(v, win, nicks),
                    ts,
                    roster_of(shown_name(peer), nicks),
                )
            },
{
    let first = if names.len() > 200 {
        names.take(200)
    } else {
        names
    };
    let nicks = sort_of(first);
    sorting_is_stable(first);
    let w = nicks_in(v, win, nicks);
    lemma_told_all(w, ts, roster_of(shown_name(peer), nicks));
    assert(v.names_shown(peer, win, Some(names), ts) == told_all(
        w,
        ts,
        roster_of(shown_name(peer), nicks),
    ));
}

// ── Searches ─────────────────────────────────────────────────────────────────

/// A state in which a chat is known under its name, at its place where the name was
/// known before, or else behind all others.
pub open spec fn knowing(v: AppView, peer: PeerView) -> AppView {
    let key = lowercase(shown_name(peer));
    AppView {
        all_chats: v.all_chats.insert(key, peer),
        ordered_chats: if exists|i: int|
            0 <= i < v.ordered_chats.len() && (#[trigger] v.ordered_chats[i]).key == key {
            v.ordered_chats
        } else {
            v.ordered_chats.push(EntryView { key, peer })
        },
        ..v
    }
}

/// A chat that is entered into the directory is found under its name from then on,
/// in place of another one of that name; every other name leads where it led.
pub proof fn entered_chats_are_known(v: AppView, peer: PeerView, name: Seq<char>)
    requires
        v.wf(),
    ensures
        v.with_peer(peer) == knowing(v, peer),
        v.with_peer(peer).all_chats[lowercase(shown_name(peer))] == peer,
        lowercase(name) != lowercase(shown_name(peer)) ==> v.with_peer(peer).named(name) == v.named(
            name,
        ),
        v.ordered_chats.is_prefix_of(v.with_peer(peer).ordered_chats),
{
    assert(listed(v.ordered_chats, peer.key()) <==> exists|i: int|
        0 <= i < v.ordered_chats.len() && (#[trigger] v.ordered_chats[i]).key == lowercase(
            shown_name(peer),
        ));
    let after = v.with_peer(peer).ordered_chats;
    assert(v.ordered_chats =~= after.subrange(0, v.ordered_chats.len() as int));
}

/// Every chat that a search found is shown by its name and user name and then known,
/// one after another in the order found; where none was found, or the search failed,
/// a line says so.
pub proof fn chats_found_are_shown_and_known(
    v: AppView,
    peers: Seq<PeerView>,
    error: Seq<char>,
    ts: Seq<char>,
)
    requires
        v.wf(),
    ensures
        v.searched(Err(error), ts) == told(v, ts, "-!- Error: "@ + error),
        peers.len() == 0 ==> v.searched(Ok(peers), ts) == told(v, ts, "-!- No results."@),
        peers.len() == 1 ==> v.searched(Ok(peers), ts) == knowing(
            told(
                v,
                ts,
                "  "@ + shown_name(peers[0]) + " (@"@ + (match peers[0].username {
                    Some(name) => name,
                    None => "none"@,
                }) + ")"@,
            ),
            peers[0],
        ),
        peers.len() > 1 ==> v.searched(Ok(peers), ts) == v.searched(
            Ok(peers.drop_last()),
            ts,
        ).searched(Ok(seq![peers.last()]), ts),
{
    notes_go_to_the_front(v, ts, "-!- Error: "@ + error);
    notes_go_to_the_front(v, ts, "-!- No results."@);
    reveal_with_fuel(AppView::with_found, 3);
    if peers.len() == 1 {
        assert(peers.drop_last() =~= Seq::empty());
        assert(peers.last() == peers[0]);
        notes_go_to_the_front(v, ts, found_line(peers[0]));
        let w = told(v, ts, found_line(peers[0]));
        assert(listed(w.ordered_chats, peers[0].key()) <==> exists|i: int|
            0 <= i < w.ordered_chats.len() && (#[trigger] w.ordered_chats[i]).key == lowercase(
                shown_name(peers[0]),
            ));
    } else if peers.len() > 1 {
        let one = seq![peers.last()];
        assert(one.drop_last() =~= Seq::empty());
        assert(one.last() == peers.last());
    }
}

} // verus!
