//! What the client asks of the outside world, and what it does with the answers.
use vstd::prelude::*;
use crate::peer::{Peer, PeerView};

verus! {

/// How many messages of a chat's past are read in.
pub const HISTORY_LIMIT: usize = 100;

/// How many messages are looked at to keep the window in front up to date.
pub const REFRESH_LIMIT: usize = 20;

/// How many members of a chat are listed.
pub const NAMES_LIMIT: usize = 200;

/// How many chats a search finds at most.
pub const SEARCH_LIMIT: usize = 10;

/// What follows once the past of a window was read in, or could not be.
#[derive(Debug)]
pub enum AfterHistory {
    /// Save the windows.
    Save,
    /// Report that a window was closed, then save the windows.
    Closed { name: String },
    /// Send a message to the chat of the window.
    Send { peer: Peer, text: String },
    /// Report that the window was read in anew.
    Reloaded,
    /// Report how many windows of the last session were opened again.
    Restored { count: usize },
    /// Add the message of the user for which the window was opened, then save the
    /// windows.
    Echo { ts: String, text: String },
}

/// What kind of message is sent.
#[derive(Clone, Copy, Debug, PartialEq, Eq, Structural)]
pub enum SendKind {
    /// A slap with a trout.
    Trout,
    /// A message of the command to message somebody.
    Message,
    /// An action.
    Me,
    /// A plain line.
    Say,
}

/// What the client asks of the outside world.
#[derive(Debug)]
pub enum Action {
    /// Nothing.
    Done,
    /// To save the windows.
    Save,
    /// To save the windows and end.
    Quit,
    /// To fetch the newest messages of the chat of window `win`, at most `limit`.
    LoadHistory { win: usize, limit: usize, next: AfterHistory },
    /// To fetch the newest messages of the chat of window `win`, at most `limit`,
    /// to add those not shown yet.
    Refresh { win: usize, limit: usize },
    /// To send a message to a chat; it will be shown in window `win`.
    Send { win: usize, peer: Peer, text: String, kind: SendKind },
    /// To fetch the names of the members of a chat; they will be the nicks of its
    /// window, if it has one.
    FetchNames { peer: Peer, window: Option<usize> },
    /// To search for chats.
    Search { query: String },
}

/// The model of what follows a reading.
#[verifier::ext_equal]
pub enum AfterView {
    Save,
    Closed { name: Seq<char> },
    Send { peer: PeerView, text: Seq<char> },
    Reloaded,
    Restored { count: usize },
    Echo { ts: Seq<char>, text: Seq<char> },
}

/// The model of what the client asks.
#[verifier::ext_equal]
pub enum ActionView {
    Done,
    Save,
    Quit,
    LoadHistory { win: usize, limit: usize, next: AfterView },
    Refresh { win: usize, limit: usize },
    Send { win: usize, peer: PeerView, text: Seq<char>, kind: SendKind },
    FetchNames { peer: PeerView, window: Option<usize> },
    Search { query: Seq<char> },
}

impl View for AfterHistory {
    type V = AfterView;

    open spec fn view(&self) -> AfterView {
        match *self {
            AfterHistory::Save => AfterView::Save,
            AfterHistory::Closed { name } => AfterView::Closed { name: name@ },
            AfterHistory::Send { peer, text } => AfterView::Send { peer: peer@, text: text@ },
            AfterHistory::Reloaded => AfterView::Reloaded,
            AfterHistory::Restored { count } => AfterView::Restored { count },
            AfterHistory::Echo { ts, text } => AfterView::Echo { ts: ts@, text: text@ },
        }
    }
}

impl View for Action {
    type V = ActionView;

    open spec fn view(&self) -> ActionView {
        match *self {
            Action::Done => ActionView::Done,
            Action::Save => ActionView::Save,
            Action::Quit => ActionView::Quit,
            Action::LoadHistory { win, limit, next } => ActionView::LoadHistory {
                win,
                limit,
                next: next@,
            },
            Action::Refresh { win, limit } => ActionView::Refresh { win, limit },
            Action::Send { win, peer, text, kind } => ActionView::Send {
                win,
                peer: peer@,
                text: text@,
                kind,
            },
            Action::FetchNames { peer, window } => ActionView::FetchNames { peer: peer@, window },
            Action::Search { query } => ActionView::Search { query: query@ },
        }
    }
}

/// The request to read in the past of window `win`.
pub open spec fn read_in(win: usize, next: AfterView) -> ActionView {
    ActionView::LoadHistory { win, limit: HISTORY_LIMIT, next }
}

/// Whether the windows that an action speaks of exist among `n` windows.
pub open spec fn in_range(a: ActionView, n: nat) -> bool {
    match a {
        ActionView::LoadHistory { win, .. } => win < n,
        ActionView::Refresh { win, .. } => win < n,
        ActionView::Send { win, .. } => win < n,
        ActionView::FetchNames { window, .. } => window matches Some(i) ==> i < n,
        _ => true,
    }
}

} // verus!
