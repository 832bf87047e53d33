use irssi_tg::action::{Action, AfterHistory, SendKind};
use irssi_tg::app::App;
use irssi_tg::history::Message;
use irssi_tg::peer::Peer;
use irssi_tg::reply::SendOutcome;
use irssi_tg::roster::Member;
use irssi_tg::theme::Theme;

fn s(x: &str) -> String {
    x.to_string()
}

fn peer(id: i64, name: &str) -> Peer {
    Peer { id, name: Some(s(name)), username: None }
}

fn client() -> App {
    let mut app = App::new(Theme::default());
    app.focus_window(&peer(1, "Ann"));
    app.focus_window(&peer(2, "Bob"));
    app.select(0);
    app
}

fn texts(app: &App, i: usize) -> Vec<String> {
    app.windows[i].lines.iter().map(|l| l.text.clone()).collect()
}

fn past() -> Option<Vec<Message>> {
    Some(vec![Message { date: 0, sender: Some(s("Bob")), text: s("hi"), media: None, outgoing: false }])
}

#[test]
fn reading_in_goes_on_as_asked() {
    let mut app = client();
    let st = vec![s("09:00")];
    assert!(matches!(app.history_done_at(1, &past(), &st, AfterHistory::Save, "10:00"), Action::Save));
    assert_eq!(texts(&app, 1), vec!["hi"]);
    assert_eq!(app.windows[1].lines[0].ts, "09:00");
    let none = Vec::new();
    let r = app.history_done_at(1, &None, &none, AfterHistory::Closed { name: s("X") }, "10:00");
    assert!(matches!(r, Action::Save));
    assert_eq!(texts(&app, 0), vec!["-!- Closed: X"]);
    assert_eq!(texts(&app, 1), vec!["hi"]);
    assert!(matches!(app.history_done_at(0, &None, &none, AfterHistory::Reloaded, "10:00"), Action::Done));
    assert_eq!(texts(&app, 0), vec!["-!- Closed: X", "-!- Done."]);
    let r = app.history_done_at(0, &None, &none, AfterHistory::Restored { count: 3 }, "10:00");
    assert!(matches!(r, Action::Done));
    assert_eq!(app.status_lines[0].text, "Restored 3 windows from last session.");
    let next = AfterHistory::Send { peer: peer(2, "Bob"), text: s("yo") };
    let r = app.history_done_at(1, &None, &none, next, "10:00");
    assert!(matches!(r, Action::Send { win: 1, peer, text, kind: SendKind::Message } if peer.id == 2 && text == "yo"));
    let next = AfterHistory::Echo { ts: s("08:00"), text: s("mine") };
    assert!(matches!(app.history_done_at(1, &None, &none, next, "10:00"), Action::Save));
    assert_eq!(texts(&app, 1), vec!["hi", "mine"]);
    assert_eq!(app.windows[1].lines[1].ts, "08:00");
    assert_eq!(app.windows[1].lines[1].prefix, "<You>");
}

#[test]
fn reading_in_reads_the_clock() {
    let mut app = client();
    assert!(matches!(app.history_done(0, &past(), AfterHistory::Reloaded), Action::Done));
    assert_eq!(texts(&app, 0), vec!["hi", "-!- Done."]);
    assert_eq!(app.windows[0].lines[0].ts.len(), 5);
}

#[test]
fn sent_messages_are_shown() {
    let mut app = client();
    for (kind, save, prefix, sys) in [
        (SendKind::Trout, true, "***", true),
        (SendKind::Message, true, "<You>", false),
        (SendKind::Me, false, "***", true),
        (SendKind::Say, false, "<You>", false),
    ] {
        let r = app.send_done_at(1, "x", kind, &SendOutcome::Sent, "10:00");
        assert_eq!(matches!(r, Action::Save), save);
        let l = app.windows[1].lines.back().unwrap();
        assert_eq!(l.prefix, prefix);
        assert_eq!(l.is_sys, sys);
        assert_eq!(l.text, "x");
        assert_eq!(l.ts, "10:00");
    }
    assert!(app.windows[0].lines.is_empty());
}

#[test]
fn messages_that_were_not_sent_are_reported() {
    let mut app = client();
    for kind in [SendKind::Trout, SendKind::Message, SendKind::Say] {
        assert!(matches!(app.send_done_at(1, "x", kind, &SendOutcome::Unresolved, "10:00"), Action::Done));
    }
    assert_eq!(texts(&app, 0), vec!["-!- Could not resolve peer."; 3]);
    app.send_done_at(1, "x", SendKind::Me, &SendOutcome::Unresolved, "10:00");
    assert_eq!(texts(&app, 0).len(), 3);
    app.send_done(1, "x", SendKind::Me, &SendOutcome::Failed { error: s("flood") });
    assert_eq!(texts(&app, 0)[3], "-!- Error: flood");
    assert!(app.windows[1].lines.is_empty());
}

#[test]
fn own_messages_that_come_back_are_not_doubled() {
    let mut app = client();
    app.send_done_at(0, "hi", SendKind::Say, &SendOutcome::Sent, "10:00");
    app.push_echo(0, "10:01", "hi");
    assert_eq!(texts(&app, 0), vec!["hi"]);
    app.push_echo(0, "10:01", "other");
    app.push_echo(0, "10:01", "hi");
    assert_eq!(texts(&app, 0), vec!["hi", "other", "hi"]);
    app.send_done_at(0, "* waves *", SendKind::Me, &SendOutcome::Sent, "10:00");
    app.push_echo(0, "10:01", "* waves *");
    assert_eq!(texts(&app, 0).len(), 5);
}

#[test]
fn members_become_nicks_and_are_listed() {
    let mut app = client();
    let m = |n: &str| Member { first_name: Some(s(n)), username: None };
    let members = Some(vec![m("zoe"), m("Ann"), m("bob")]);
    app.names_done_at(&peer(2, "Bob"), Some(1), &members, "10:00");
    assert_eq!(app.windows[1].nicks, vec!["Ann", "bob", "zoe"]);
    assert_eq!(texts(&app, 0).len(), 3);
    assert_eq!(texts(&app, 0)[0], "-!- Bob (3 users):");
    assert_eq!(texts(&app, 0)[1], "    Ann         bob         zoe");
    app.names_done(&peer(2, "Bob"), Some(1), &None);
    assert_eq!(texts(&app, 0).len(), 3);
    let many = Some((0..250).map(|i| m(&format!("m{:03}", 249 - i))).collect::<Vec<Member>>());
    app.names_done(&peer(3, "Big"), None, &many);
    assert_eq!(texts(&app, 0)[3], "-!- Big (200 users):");
    assert!(texts(&app, 0)[4].starts_with("    m050"));
    assert_eq!(app.windows[1].nicks.len(), 3);
}

#[test]
fn chats_that_are_found_become_known() {
    let mut app = client();
    app.search_done_at(&Ok(Vec::new()), "10:00");
    assert_eq!(texts(&app, 0), vec!["-!- No results."]);
    let found = vec![peer(5, "Eve"), Peer { id: 6, name: None, username: Some(s("x")) }];
    app.search_done_at(&Ok(found), "10:00");
    assert_eq!(texts(&app, 0)[1..], ["  Eve (@none)", "  Unknown (@x)"]);
    assert_eq!(app.ordered_chats.len(), 2);
    assert_eq!(app.all_chats.get("eve").unwrap().id, 5);
    app.search_done(&Err(s("offline")));
    assert_eq!(texts(&app, 0)[3], "-!- Error: offline");
}

#[test]
fn lines_read_in_do_not_hide_new_messages() {
    let mut app = client();
    let own = |text: &str| Message { date: 0, sender: None, text: s(text), media: None, outgoing: true };
    let st = vec![s("09:00")];
    app.show_history(0, &vec![own("ok")], &st);
    app.push_echo(0, "10:00", "ok");
    assert_eq!(texts(&app, 0), vec!["ok", "ok"]);
    assert!(app.windows[0].lines[0].read_in && !app.windows[0].lines[1].read_in);
    app.push_echo(0, "10:01", "ok");
    assert_eq!(texts(&app, 0).len(), 2);
    app.show_refresh(0, &vec![own("later")], &vec![s("10:02")]);
    app.push_echo(0, "10:02", "later");
    assert_eq!(texts(&app, 0), vec!["ok", "ok", "later", "later"]);
}

#[test]
fn a_message_that_opens_a_window_is_shown_once() {
    let mut app = client();
    let note = Message { date: 0, sender: None, text: s("note"), media: None, outgoing: true };
    let next = AfterHistory::Echo { ts: s("09:00"), text: s("note") };
    app.history_done_at(1, &Some(vec![note]), &vec![s("09:00")], next, "10:00");
    assert_eq!(texts(&app, 1), vec!["note"]);
    let next = AfterHistory::Echo { ts: s("09:00"), text: s("other") };
    app.history_done_at(0, &None, &Vec::new(), next, "10:00");
    assert_eq!(texts(&app, 0), vec!["other"]);
}
