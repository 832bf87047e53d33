use irssi_tg::action::{Action, AfterHistory, SendKind};
use irssi_tg::app::{App, WindowActivity, SCROLLBACK};
use irssi_tg::command::parse_command;
use irssi_tg::peer::Peer;
use irssi_tg::theme::Theme;

fn peer(id: i64, name: &str) -> Peer {
    Peer { id, name: Some(name.to_string()), username: None }
}

fn client(names: &[(i64, &str)]) -> App {
    let mut app = App::new(Theme::default());
    for (id, name) in names {
        app.add_peer(&peer(*id, name));
    }
    app
}

fn with_windows(names: &[(i64, &str)]) -> App {
    let mut app = client(names);
    for (id, name) in names {
        app.focus_window(&peer(*id, name));
    }
    app
}

fn run(app: &mut App, line: &str) -> Action {
    app.run_command(parse_command(line), "12:34")
}

fn last(app: &App) -> String {
    let lines = match app.active {
        Some(i) => &app.windows[i].lines,
        None => &app.status_lines,
    };
    lines.back().unwrap().text.clone()
}

fn clock_like(s: &str) -> bool {
    let b = s.as_bytes();
    b.len() == 5 && b[2] == b':' && [0, 1, 3, 4].iter().all(|i| b[*i].is_ascii_digit())
        && &s[..2] < "24" && &s[3..] < "60"
}

#[test]
fn a_new_client_is_empty() {
    let app = App::new(Theme::default());
    assert!(app.windows.is_empty());
    assert_eq!(app.active, None);
    assert_eq!(app.active_name(), "(status)");
    assert_eq!(app.input, "");
    assert!(app.status_lines.is_empty());
    assert!(app.ordered_chats.is_empty());
    assert!(app.tab.is_none());
}

#[test]
fn client_messages_are_stamped_with_the_time() {
    let l = App::make_sys_line("hello");
    assert!(clock_like(&l.ts));
    assert_eq!(l.prefix, "-!-");
    assert_eq!(l.text, "hello");
    assert!(l.is_sys && !l.is_highlight && l.nick.is_none());
    let mut app = with_windows(&[(1, "Ann")]);
    app.push_status_sys("one");
    app.select(0);
    app.push_sys("two");
    app.push_status_sys("three");
    assert_eq!(app.status_lines.len(), 2);
    assert_eq!(app.windows[0].lines.len(), 1);
    assert!(clock_like(&app.windows[0].lines[0].ts));
    assert!(clock_like(&app.status_lines[1].ts));
}

#[test]
fn a_scrollback_keeps_the_newest_lines() {
    let mut app = App::new(Theme::default());
    for i in 0..SCROLLBACK + 5 {
        app.push_status_at("00:00", &i.to_string());
    }
    assert_eq!(app.status_lines.len(), SCROLLBACK);
    assert_eq!(app.status_lines[0].text, "5");
    assert_eq!(last(&app), (SCROLLBACK + 4).to_string());
}

#[test]
fn the_directory_knows_a_name_once() {
    let mut app = client(&[(1, "Ann"), (2, "ANN"), (3, "Bob")]);
    assert_eq!(app.ordered_chats.len(), 2);
    assert_eq!(app.ordered_chats[0].peer.id, 1);
    assert_eq!(app.all_chats.get("ann").unwrap().id, 2);
    assert!(app.all_chats.get("Ann").is_none());
    app.add_peer(&Peer { id: 9, name: None, username: None });
    assert_eq!(app.ordered_chats[2].key, "unknown");
}

#[test]
fn chats_are_read_in_up_to_a_limit() {
    let mut app = App::new(Theme::default());
    for i in 0..499 {
        assert!(!app.cache_dialog(&peer(i, &format!("n{}", i))));
    }
    assert!(!app.cache_dialog(&peer(1000, "n0")));
    assert!(app.cache_dialog(&peer(1001, "another")));
}

#[test]
fn the_longest_known_name_wins() {
    let app = client(&[(1, "Ann"), (2, "Ann Lee"), (3, "Bob")]);
    assert_eq!(app.find_best_match_key("ANN LEE hi"), Some("ann lee".to_string()));
    assert_eq!(app.find_best_match_key("anna"), Some("ann".to_string()));
    assert_eq!(app.find_best_match_key("zed"), None);
    assert_eq!(app.find_best_match("Bobby").unwrap().id, 3);
    assert!(app.find_best_match("").is_none());
}

#[test]
fn a_chat_has_one_window() {
    let mut app = client(&[]);
    assert_eq!(app.focus_window(&peer(1, "Ann")), 0);
    assert_eq!(app.focus_window(&peer(2, "Bob")), 1);
    assert_eq!(app.focus_window(&peer(1, "Ann Lee")), 0);
    assert_eq!(app.windows.len(), 2);
    assert_eq!(app.windows[0].name, "Ann");
    assert_eq!(app.focus_window(&Peer { id: 3, name: None, username: None }), 2);
    assert_eq!(app.windows[2].name, "Unknown");
}

#[test]
fn win_switches_windows() {
    let mut app = with_windows(&[(1, "Ann"), (2, "Bob")]);
    app.windows[1].unread = 3;
    app.windows[1].activity = WindowActivity::Highlight;
    let r = run(&mut app, "/win 3");
    assert!(matches!(r, Action::LoadHistory { win: 1, limit: 100, next: AfterHistory::Save }));
    assert_eq!(app.active, Some(1));
    assert_eq!(app.windows[1].unread, 0);
    assert_eq!(app.windows[1].activity, WindowActivity::Quiet);
    assert_eq!(last(&app), "-!- Now in: Bob");
    assert!(matches!(run(&mut app, "/win 1"), Action::Save));
    assert_eq!(app.active, None);
    assert_eq!(last(&app), "Switched to status window.");
    assert!(matches!(run(&mut app, "/win 9"), Action::Save));
    assert_eq!(app.active, None);
    assert!(matches!(run(&mut app, "/win 0"), Action::LoadHistory { win: 0, .. }));
    assert_eq!(app.active_name(), "Ann");
}

#[test]
fn windows_are_listed_with_their_numbers() {
    let mut app = with_windows(&[(1, "Ann"), (2, "Bob")]);
    app.select(1);
    assert_eq!(app.list_windows(), vec!["  [1] (status)", "  [2 ] Ann", "  [3*] Bob"]);
    assert!(matches!(run(&mut app, "/win"), Action::Done));
    assert_eq!(app.windows[1].lines.len(), 3);
    assert_eq!(last(&app), "  [3*] Bob");
    assert_eq!(app.windows[1].lines[0].ts, "12:34");
}

#[test]
fn close_closes_the_window_in_front() {
    let mut app = with_windows(&[(1, "Ann"), (2, "Bob"), (3, "Cyd")]);
    app.windows[0].unread = 2;
    app.windows[0].activity = WindowActivity::Text;
    app.select(1);
    let r = run(&mut app, "/close");
    assert!(matches!(r, Action::LoadHistory { win: 0, limit: 100, next: AfterHistory::Closed { name } } if name == "Bob"));
    assert_eq!(app.active, Some(0));
    assert_eq!(app.windows.len(), 2);
    assert_eq!(app.windows[0].unread, 0);
    assert_eq!(app.windows[0].activity, WindowActivity::Text);
    assert_eq!(app.windows[1].name, "Cyd");
}

#[test]
fn closing_another_window_keeps_the_front() {
    let mut app = with_windows(&[(1, "Ann"), (2, "Bob"), (3, "Cyd")]);
    app.select(2);
    assert!(matches!(run(&mut app, "/close 2"), Action::Save));
    assert_eq!(app.active, Some(1));
    assert_eq!(app.active_name(), "Cyd");
    assert_eq!(last(&app), "-!- Closed: Ann");
    app.select(0);
    assert!(matches!(run(&mut app, "/close 3"), Action::Save));
    assert_eq!(app.active_name(), "Bob");
    assert!(matches!(run(&mut app, "/close 9"), Action::Done));
    assert!(matches!(run(&mut app, "/close"), Action::Save));
    assert_eq!(app.active, None);
    assert!(app.windows.is_empty());
    assert_eq!(last(&app), "-!- Closed: Bob");
    assert!(matches!(run(&mut app, "/close"), Action::Done));
}

#[test]
fn close_with_a_small_number_closes_the_first() {
    let mut app = with_windows(&[(1, "Ann"), (2, "Bob")]);
    assert!(matches!(run(&mut app, "/close 0"), Action::Save));
    assert_eq!(app.windows[0].name, "Bob");
    assert_eq!(app.active, None);
}

#[test]
fn chats_are_listed() {
    let mut app = client(&[(1, "Ann"), (2, "Bob"), (3, "Robin")]);
    assert_eq!(
        app.list_matching(""),
        vec!["-!- Channel List:", "  Ann", "  Bob", "  Robin", "-!- End of /list"]
    );
    assert_eq!(
        app.list_matching("OB"),
        vec!["-!- Channel List:", "  Bob", "  Robin", "-!- End of /list"]
    );
    run(&mut app, "/chats zz");
    assert_eq!(app.status_lines.len(), 2);
    assert_eq!(last(&app), "-!- End of /list");
}

#[test]
fn names_are_asked_for() {
    let mut app = with_windows(&[(1, "Ann"), (2, "Bob")]);
    assert!(matches!(run(&mut app, "/names"), Action::Done));
    assert_eq!(last(&app), "-!- Cannot find chat for /names");
    assert!(matches!(run(&mut app, "/names bob"), Action::FetchNames { peer, window: Some(1) } if peer.id == 2));
    assert_eq!(last(&app), "-!- Fetching names for Bob...");
    app.select(0);
    assert!(matches!(run(&mut app, "/names"), Action::FetchNames { peer, window: Some(0) } if peer.id == 1));
    app.add_peer(&peer(7, "Cyd"));
    assert!(matches!(run(&mut app, "/names cyd"), Action::FetchNames { peer, window: None } if peer.id == 7));
}

#[test]
fn whois_tells_what_is_known() {
    let mut app = client(&[]);
    app.add_peer(&Peer { id: -42, name: Some("Ann".to_string()), username: Some("annie".to_string()) });
    app.add_peer(&peer(2, "Bob"));
    run(&mut app, "/whois ann");
    assert_eq!(last(&app), "-!- WHOIS Ann (@annie) ID:-42");
    run(&mut app, "/whois BOB");
    assert_eq!(last(&app), "-!- WHOIS Bob (@none) ID:2");
    run(&mut app, "/whois zed");
    assert_eq!(last(&app), "-!- No such nick: zed");
}

#[test]
fn other_commands_report() {
    let mut app = client(&[]);
    assert!(matches!(run(&mut app, "/topic"), Action::Done));
    assert_eq!(last(&app), "-!- /topic is not supported for standard Telegram chats.");
    assert!(matches!(run(&mut app, "/search ab c"), Action::Search { query } if query == "ab c"));
    assert_eq!(last(&app), "-!- Searching 'ab c'...");
    run(&mut app, "/reload");
    assert_eq!(last(&app), "-!- No active window.");
    run(&mut app, "/nope x");
    assert_eq!(last(&app), "-!- Unknown command: /nope  (try /help)");
    assert!(matches!(run(&mut app, "hello"), Action::Done));
    assert_eq!(last(&app), "-!- No active window. /join <n> or /win 2");
    let n = app.status_lines.len();
    assert!(matches!(run(&mut app, "/me waves"), Action::Done));
    assert!(matches!(run(&mut app, "  "), Action::Done));
    assert!(matches!(run(&mut app, "/quit"), Action::Quit));
    assert_eq!(app.status_lines.len(), n);
    run(&mut app, "/help");
    assert_eq!(app.status_lines.len(), n + 16);
    assert_eq!(last(&app), "    Ctrl-C                  quit");
}

#[test]
fn joining_opens_a_window() {
    let mut app = client(&[(1, "Ann"), (2, "Bob")]);
    let r = run(&mut app, "/join bo");
    assert!(matches!(r, Action::Done));
    assert_eq!(last(&app), "-!- No match. /search <n> first.");
    let r = run(&mut app, "/join bob");
    assert!(matches!(r, Action::LoadHistory { win: 0, next: AfterHistory::Save, .. }));
    assert_eq!(app.active_name(), "Bob");
    assert_eq!(last(&app), "-!- Joining: Bob");
    let r = run(&mut app, "/msg ANN");
    assert!(matches!(r, Action::LoadHistory { win: 1, next: AfterHistory::Save, .. }));
    assert_eq!(last(&app), "-!- Joining: Ann");
    let r = run(&mut app, "/join bob and more");
    assert!(matches!(r, Action::LoadHistory { win: 0, next: AfterHistory::Save, .. }));
}

#[test]
fn messages_go_to_the_chat_that_is_named() {
    let mut app = client(&[(1, "Ann"), (2, "Ann Lee")]);
    let r = run(&mut app, "/msg ann lee  how are you? ");
    assert_eq!(last(&app), "-!- Messaging: Ann Lee");
    match r {
        Action::LoadHistory { win: 0, limit: 100, next: AfterHistory::Send { peer, text } } => {
            assert_eq!(peer.id, 2);
            assert_eq!(text, "how are you?");
        }
        _ => panic!("not a message"),
    }
    let r = run(&mut app, "/query annabel");
    assert!(matches!(r, Action::LoadHistory { win: 1, next: AfterHistory::Send { text, .. }, .. } if text == "abel"));
}

#[test]
fn trouts_are_slapped_with() {
    let mut app = client(&[(1, "Ann")]);
    match run(&mut app, "/trout ann") {
        Action::Send { win: 0, peer, text, kind: SendKind::Trout } => {
            assert_eq!(peer.id, 1);
            assert_eq!(text, "* slaps Ann around a bit with a large trout *");
        }
        _ => panic!("no slap"),
    }
    assert_eq!(app.active, Some(0));
    assert!(app.windows[0].lines.is_empty());
}

#[test]
fn the_window_in_front_is_talked_to() {
    let mut app = with_windows(&[(1, "Ann"), (2, "Bob")]);
    app.select(1);
    assert!(matches!(run(&mut app, " hi there "), Action::Send { win: 1, peer, text, kind: SendKind::Say } if peer.id == 2 && text == "hi there"));
    assert!(matches!(run(&mut app, "/me waves"), Action::Send { win: 1, text, kind: SendKind::Me, .. } if text == "* waves *"));
    assert!(app.windows[1].lines.is_empty());
    assert!(matches!(run(&mut app, "/reload"), Action::LoadHistory { win: 1, limit: 100, next: AfterHistory::Reloaded }));
    assert_eq!(last(&app), "-!- Reloading Bob...");
}

#[test]
fn lines_that_cannot_be_cut_are_refused() {
    let mut app = client(&[(1, "İ")]);
    assert!(app.can_run("/join ann"));
    assert!(!app.can_run("/msg İż"));
    assert!(app.submit("/msg İż").is_none());
    assert!(app.windows.is_empty());
    assert!(app.can_run("/join İa"));
    assert!(matches!(app.submit("/join İa"), Some(Action::LoadHistory { win: 0, .. })));
    assert!(clock_like(&app.windows[0].lines[0].ts));
    assert!(matches!(app.handle_command("/win 1"), Action::Save));
}
