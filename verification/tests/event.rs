use irssi_tg::action::{Action, AfterHistory};
use irssi_tg::app::{App, WindowActivity};
use irssi_tg::event::{Key, KeyCode, Modifier, NewMessage};
use irssi_tg::history::{Media, Message};
use irssi_tg::peer::Peer;
use irssi_tg::theme::Theme;

fn s(x: &str) -> String {
    x.to_string()
}

fn peer(id: i64, name: &str) -> Peer {
    Peer { id, name: Some(s(name)), username: None }
}

fn client(names: &[(i64, &str)]) -> App {
    let mut app = App::new(Theme::default());
    for (id, name) in names {
        app.add_peer(&peer(*id, name));
        app.focus_window(&peer(*id, name));
    }
    app
}

fn key(code: KeyCode, modifier: Modifier) -> Key {
    Key { code, modifier, pressed: true }
}

fn press(app: &mut App, code: KeyCode, modifier: Modifier) -> Action {
    app.on_key(key(code, modifier)).unwrap()
}

fn new(peer: Peer, sender: Option<&str>, text: &str, outgoing: bool, mentioned: bool) -> NewMessage {
    NewMessage {
        peer,
        message: Message { date: 0, sender: sender.map(s), text: s(text), media: None, outgoing },
        mentioned,
    }
}

#[test]
fn typing_and_erasing() {
    let mut app = client(&[]);
    for ch in "hżC".chars() {
        let m = if ch == 'C' { Modifier::Shift } else { Modifier::Plain };
        assert!(matches!(press(&mut app, KeyCode::Char { ch }, m), Action::Done));
    }
    assert_eq!(app.input, "hżC");
    press(&mut app, KeyCode::Backspace, Modifier::Plain);
    press(&mut app, KeyCode::Backspace, Modifier::Control);
    assert_eq!(app.input, "h");
    press(&mut app, KeyCode::Backspace, Modifier::Plain);
    press(&mut app, KeyCode::Backspace, Modifier::Plain);
    assert_eq!(app.input, "");
}

#[test]
fn other_keys_do_nothing() {
    let mut app = client(&[(1, "Ann")]);
    for k in [
        key(KeyCode::Char { ch: 'x' }, Modifier::Control),
        key(KeyCode::Char { ch: 'x' }, Modifier::Alt),
        key(KeyCode::Char { ch: 'c' }, Modifier::Other),
        key(KeyCode::Left, Modifier::Plain),
        key(KeyCode::Right, Modifier::Shift),
        key(KeyCode::Other, Modifier::Plain),
        Key { code: KeyCode::Char { ch: 'c' }, modifier: Modifier::Control, pressed: false },
        Key { code: KeyCode::Enter, modifier: Modifier::Plain, pressed: false },
        key(KeyCode::Char { ch: '0' }, Modifier::Alt),
        key(KeyCode::Char { ch: '9' }, Modifier::Alt),
    ] {
        assert!(matches!(app.on_key(k), Some(Action::Done)));
    }
    assert_eq!(app.input, "");
    assert_eq!(app.active, None);
    assert!(app.status_lines.is_empty());
}

#[test]
fn control_c_quits() {
    let mut app = client(&[]);
    assert!(matches!(press(&mut app, KeyCode::Char { ch: 'c' }, Modifier::Control), Action::Quit));
}

#[test]
fn alt_digits_jump() {
    let mut app = client(&[(1, "Ann"), (2, "Bob")]);
    app.windows[1].unread = 4;
    let r = app.on_key_at(key(KeyCode::Char { ch: '3' }, Modifier::Alt), "10:00");
    assert!(matches!(r, Action::LoadHistory { win: 1, limit: 100, next: AfterHistory::Save }));
    assert_eq!(app.active, Some(1));
    assert_eq!(app.windows[1].unread, 0);
    assert_eq!(app.windows[1].lines[0].text, "-!- Now in: Bob");
    assert_eq!(app.windows[1].lines[0].ts, "10:00");
    assert!(matches!(press(&mut app, KeyCode::Char { ch: '1' }, Modifier::Alt), Action::Save));
    assert_eq!(app.active, None);
    assert_eq!(app.status_lines[0].text, "Switched to status window.");
}

#[test]
fn alt_arrows_go_round() {
    let mut app = client(&[(1, "Ann"), (2, "Bob")]);
    let mut seen = Vec::new();
    for _ in 0..4 {
        press(&mut app, KeyCode::Right, Modifier::Alt);
        seen.push(app.active);
    }
    assert_eq!(seen, vec![Some(0), Some(1), None, Some(0)]);
    app.windows[1].activity = WindowActivity::Text;
    app.windows[1].unread = 1;
    press(&mut app, KeyCode::Left, Modifier::Alt);
    assert_eq!(app.active, None);
    let r = press(&mut app, KeyCode::Left, Modifier::Alt);
    assert!(matches!(r, Action::LoadHistory { win: 1, next: AfterHistory::Save, .. }));
    assert_eq!(app.active, Some(1));
    assert_eq!(app.windows[1].activity, WindowActivity::Quiet);
    assert_eq!(app.windows[1].unread, 0);
    assert!(app.windows[1].lines.is_empty());
    press(&mut app, KeyCode::Left, Modifier::Alt);
    press(&mut app, KeyCode::Right, Modifier::Alt);
    assert_eq!(app.active, Some(1));
    let mut empty = client(&[]);
    assert!(matches!(press(&mut empty, KeyCode::Left, Modifier::Alt), Action::Save));
    assert!(matches!(press(&mut empty, KeyCode::Right, Modifier::Alt), Action::Save));
    assert_eq!(empty.active, None);
}

#[test]
fn enter_runs_the_line() {
    let mut app = client(&[(1, "Ann")]);
    app.input = s("/join a");
    press(&mut app, KeyCode::Tab, Modifier::Plain);
    assert_eq!(app.input, "/join Ann");
    let r = press(&mut app, KeyCode::Enter, Modifier::Plain);
    assert!(matches!(r, Action::LoadHistory { win: 0, .. }));
    assert_eq!(app.input, "");
    assert!(app.tab.is_none());
    assert_eq!(app.active, Some(0));
    app.input = s("hello");
    assert!(matches!(press(&mut app, KeyCode::Enter, Modifier::Alt), Action::Send { text, .. } if text == "hello"));
}

#[test]
fn enter_with_a_line_that_cannot_be_cut() {
    let mut app = client(&[(1, "İ")]);
    app.input = s("/msg İż");
    assert!(app.on_key(key(KeyCode::Enter, Modifier::Plain)).is_none());
    assert_eq!(app.input, "/msg İż");
}

#[test]
fn messages_come_into_the_window_of_their_chat() {
    let mut app = client(&[(1, "Ann"), (2, "Dev")]);
    app.select(0);
    let r = app.on_message_at(&new(peer(2, "Dev"), Some("Bob"), "hi", false, false), "10:00");
    assert!(matches!(r, Action::Save));
    let w = &app.windows[1];
    assert_eq!((w.unread, w.activity), (1, WindowActivity::Text));
    assert_eq!(w.nicks, vec!["Bob"]);
    let l = w.lines.back().unwrap();
    assert_eq!((l.ts.as_str(), l.prefix.as_str(), l.text.as_str()), ("10:00", "<Bob>", "hi"));
    assert_eq!(l.nick, Some(s("Bob")));
    assert!(!l.is_highlight);
    app.on_message_at(&new(peer(2, "Dev"), Some("Bob"), "you!", false, true), "10:01");
    assert_eq!((app.windows[1].unread, app.windows[1].activity), (2, WindowActivity::Highlight));
    assert!(app.windows[1].lines.back().unwrap().is_highlight);
    app.on_message_at(&new(peer(2, "Dev"), None, "more", false, false), "10:02");
    assert_eq!((app.windows[1].unread, app.windows[1].activity), (3, WindowActivity::Highlight));
    assert_eq!(app.windows[1].nicks, vec!["Bob", "Unknown"]);
    assert!(app.windows[0].lines.is_empty());
    assert_eq!(app.active, Some(0));
}

#[test]
fn messages_to_the_front_are_not_counted() {
    let mut app = client(&[(1, "Ann")]);
    app.select(0);
    app.on_message(&new(peer(1, "Ann"), Some("Ann"), "hi", false, true));
    assert_eq!((app.windows[0].unread, app.windows[0].activity), (0, WindowActivity::Quiet));
    assert_eq!(app.windows[0].lines.len(), 1);
    assert_eq!(app.windows[0].lines[0].ts.len(), 5);
}

#[test]
fn the_count_of_unread_messages_starts_again() {
    let mut app = client(&[(1, "Ann")]);
    app.windows[0].unread = usize::MAX;
    app.on_message_at(&new(peer(1, "Ann"), Some("Ann"), "hi", false, false), "10:00");
    assert_eq!(app.windows[0].unread, 0);
}

#[test]
fn messages_of_strangers_open_windows() {
    let mut app = client(&[(1, "Ann Lee")]);
    app.on_message_at(&new(peer(9, "Somewhere"), Some("ANN"), "hi", false, false), "10:00");
    assert_eq!(app.windows.len(), 1);
    assert_eq!(app.windows[0].unread, 1);
    assert!(app.windows[0].nicks.is_empty());
    app.on_message_at(&new(peer(9, "Somewhere"), Some("Zoe"), "hi", false, false), "10:00");
    assert_eq!(app.windows.len(), 2);
    assert_eq!(app.windows[1].name, "Somewhere");
    assert_eq!(app.windows[1].unread, 1);
    assert!(app.windows[1].nicks.is_empty());
    assert_eq!(app.all_chats.get("somewhere").unwrap().id, 9);
}

#[test]
fn own_messages_are_echoed() {
    let mut app = client(&[(1, "Ann")]);
    let r = app.on_message_at(&new(peer(1, "Ann"), None, "mine", true, false), "10:00");
    assert!(matches!(r, Action::Done));
    assert_eq!(app.windows[0].lines[0].prefix, "<You>");
    assert_eq!(app.windows[0].unread, 0);
    app.on_message_at(&new(peer(1, "Ann"), None, "mine", true, false), "10:05");
    assert_eq!(app.windows[0].lines.len(), 1);
    let me = Peer { id: 7, name: None, username: None };
    let r = app.on_message_at(&new(me, None, "note", true, false), "10:00");
    assert_eq!(app.windows[1].name, "Saved Messages");
    match r {
        Action::LoadHistory { win: 1, limit: 100, next: AfterHistory::Echo { ts, text } } => {
            assert_eq!((ts.as_str(), text.as_str()), ("10:00", "note"));
        }
        _ => panic!("nothing to read in"),
    }
}

#[test]
fn messages_with_nothing_to_show_are_dropped() {
    let mut app = client(&[(1, "Ann")]);
    assert!(matches!(app.on_message_at(&new(peer(5, "Eve"), Some("Eve"), "", false, false), "10:00"), Action::Done));
    assert_eq!(app.windows.len(), 1);
    let mut m = new(peer(1, "Ann"), Some("Ann"), "", false, false);
    m.message.media = Some(Media::Photo { path: s("c/1/2") });
    app.on_message_at(&m, "10:00");
    assert_eq!(app.windows[0].lines[0].text, "[Photo: t.me/c/1/2]");
}

#[test]
fn the_window_in_front_is_brought_up_to_date() {
    let mut app = client(&[(1, "Ann")]);
    assert!(matches!(app.on_tick(), Action::Done));
    app.select(0);
    assert!(matches!(app.on_tick(), Action::Refresh { win: 0, limit: 20 }));
}

#[test]
fn the_client_says_that_it_is_ready() {
    let mut app = client(&[(1, "Ann"), (2, "Bob")]);
    app.select(0);
    app.announce_at("10:00");
    assert_eq!(app.status_lines[0].text, "irssi-tg ready — 2 contacts cached.");
    assert_eq!(app.status_lines[1].text, "/help for commands  |  Tab completes names in /join and /msg");
    app.announce();
    assert_eq!(app.status_lines.len(), 4);
}
