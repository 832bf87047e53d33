use irssi_tg::app::App;
use irssi_tg::complete::{command_argument, find_mention, list_chats, list_nicks};
use irssi_tg::peer::Peer;
use irssi_tg::theme::Theme;

fn peer(id: i64, name: &str) -> Peer {
    Peer { id, name: Some(name.to_string()), username: None }
}

fn client(names: &[&str]) -> App {
    let mut app = App::new(Theme::default());
    for (i, name) in names.iter().enumerate() {
        app.add_peer(&peer(i as i64, name));
    }
    app
}

fn candidates(app: &App) -> Vec<String> {
    app.tab.as_ref().unwrap().candidates.clone()
}

#[test]
fn completes_the_argument_of_a_command() {
    let mut app = client(&["Bob", "anna", "Alice", "Alan"]);
    for cmd in ["/join ", "/msg ", "/query ", "/privmsg ", "/whois ", "/names "] {
        app.reset_tab();
        app.input = format!("{}AL", cmd);
        app.do_tab();
        assert_eq!(app.input, format!("{}Alan", cmd));
        assert_eq!(candidates(&app), vec!["Alan", "Alice"]);
    }
}

#[test]
fn nothing_to_complete_changes_nothing() {
    let mut app = client(&["Bob"]);
    for line in ["", "hello", "/win b", "/join zed", "/join"] {
        app.input = line.to_string();
        app.do_tab();
        assert_eq!(app.input, line);
        assert!(app.tab.is_none());
    }
    app.input = "@bo".to_string();
    app.do_tab();
    assert_eq!(app.input, "@bo");
}

#[test]
fn tab_cycles_through_the_candidates() {
    let mut app = client(&["Alice", "Alfred"]);
    app.input = "/join al".to_string();
    app.do_tab();
    assert_eq!(app.input, "/join Alfred");
    app.do_tab();
    assert_eq!(app.input, "/join Alice");
    app.do_tab();
    assert_eq!(app.input, "/join Alfred");
    assert_eq!(candidates(&app), vec!["Alfred", "Alice"]);
    app.do_tab();
    assert_eq!(app.tab.as_ref().unwrap().idx, 1);
}

#[test]
fn tab_cycles_where_the_word_is_a_name() {
    let mut app = client(&["al", "Alan", "Alice"]);
    app.input = "/join al".to_string();
    let mut seen = Vec::new();
    for _ in 0..4 {
        app.do_tab();
        seen.push(app.input.clone());
    }
    assert_eq!(seen, vec!["/join al", "/join Alan", "/join Alice", "/join al"]);
    app.input = "/join b".to_string();
    app.do_tab();
    assert_eq!(app.input, "/join b");
}

#[test]
fn tab_cycles_through_mentions() {
    let mut app = client(&[]);
    let i = app.focus_window(&peer(7, "Dev"));
    app.select(i);
    app.windows[0].nicks = vec!["Ben Lee".to_string(), "bea".to_string()];
    app.input = "hi @b".to_string();
    app.do_tab();
    assert_eq!(app.input, "hi @bea");
    app.do_tab();
    assert_eq!(app.input, "hi @Ben Lee");
    app.do_tab();
    assert_eq!(app.input, "hi @bea");
}

#[test]
fn an_at_sign_inside_a_word_is_no_mention() {
    let mut app = client(&["a@b.org"]);
    let i = app.focus_window(&peer(7, "Chan"));
    app.select(i);
    app.windows[0].nicks = vec!["alice".to_string()];
    app.input = "mail bob@al".to_string();
    app.do_tab();
    assert_eq!(app.input, "mail bob@al");
    assert!(app.tab.is_none());
    app.input = "/join A@".to_string();
    app.do_tab();
    assert_eq!(app.input, "/join a@b.org");
    assert_eq!(find_mention("x @al"), Some(("x ", "al")));
    assert_eq!(find_mention("@"), Some(("", "")));
    assert_eq!(find_mention("x@al"), None);
    assert_eq!(find_mention("x"), None);
    assert_eq!(find_mention("@al bob"), None);
}

#[test]
fn completes_mentions_from_nicks() {
    let mut app = client(&["Bob"]);
    let i = app.focus_window(&peer(7, "Dev"));
    app.select(i);
    app.input = "hi @b".to_string();
    app.do_tab();
    assert_eq!(app.input, "hi @Bob");
    app.reset_tab();
    app.windows[0].nicks = vec!["bea".to_string(), "Zoe".to_string(), "Ben".to_string(), "bea".to_string()];
    app.input = "x@y @b".to_string();
    app.do_tab();
    assert_eq!(app.input, "x@y @bea");
    assert_eq!(candidates(&app), vec!["bea", "Ben"]);
    app.reset_tab();
    app.input = "@q".to_string();
    app.do_tab();
    assert_eq!(app.input, "@q");
}

#[test]
fn reset_forgets_a_completion() {
    let mut app = client(&["Bob"]);
    app.input = "/join b".to_string();
    app.do_tab();
    assert!(app.tab.is_some());
    app.reset_tab();
    assert!(app.tab.is_none());
    assert_eq!(app.input, "/join Bob");
}

#[test]
fn finds_names_by_their_start() {
    let app = client(&["Bob", "Bill", "Ann"]);
    assert_eq!(list_chats(&app.ordered_chats, "b"), vec!["Bob", "Bill"]);
    assert_eq!(list_chats(&app.ordered_chats, "ll"), Vec::<String>::new());
    let nicks = vec!["ÄNN".to_string(), "x".to_string()];
    assert_eq!(list_nicks(&nicks, "ä"), vec!["ÄNN"]);
    assert_eq!(command_argument("/whois a b"), Some(("/whois ", "a b")));
    assert_eq!(command_argument("/who"), None);
}

#[test]
fn only_the_last_word_is_a_mention() {
    let mut app = client(&[]);
    let i = app.focus_window(&peer(7, "Chan"));
    app.select(i);
    app.windows[0].nicks = vec!["al bob".to_string(), "alice".to_string()];
    app.input = "@al bo".to_string();
    app.do_tab();
    assert_eq!(app.input, "@al bo");
    assert!(app.tab.is_none());
}

#[test]
fn tab_cycles_through_names_with_at_signs() {
    let mut app = client(&["a@b", "ac"]);
    let i = app.focus_window(&peer(7, "Chan"));
    app.select(i);
    app.windows[0].nicks = vec!["a@b".to_string(), "ac".to_string()];
    for (line, first, second) in [("@a", "@a@b", "@ac"), ("/join a", "/join a@b", "/join ac")] {
        app.reset_tab();
        app.input = line.to_string();
        app.do_tab();
        assert_eq!(app.input, first);
        app.do_tab();
        assert_eq!(app.input, second);
        app.do_tab();
        assert_eq!(app.input, first);
    }
}

#[test]
fn an_empty_word_offers_everything() {
    let mut app = client(&["Bob", "Ann"]);
    app.input = "/msg ".to_string();
    app.do_tab();
    assert_eq!(candidates(&app), vec!["Ann", "Bob"]);
    let i = app.focus_window(&peer(7, "Chan"));
    app.select(i);
    app.reset_tab();
    app.windows[0].nicks = vec!["zoe".to_string(), "Bea".to_string()];
    app.input = "hi @".to_string();
    app.do_tab();
    assert_eq!(candidates(&app), vec!["Bea", "zoe"]);
    assert_eq!(app.input, "hi @Bea");
}

#[test]
fn a_word_that_is_put_back_steps_on() {
    let mut app = client(&["Alan", "Alice"]);
    app.input = "/join al".to_string();
    app.do_tab();
    app.input = "/join al".to_string();
    app.do_tab();
    assert_eq!(app.input, "/join Alice");
}
