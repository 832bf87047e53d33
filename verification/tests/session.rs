use irssi_tg::action::{Action, AfterHistory};
use irssi_tg::app::App;
use irssi_tg::peer::Peer;
use irssi_tg::theme::Theme;

fn peer(id: i64, name: &str) -> Peer {
    Peer { id, name: Some(name.to_string()), username: None }
}

fn knowing(names: &[(i64, &str)]) -> App {
    let mut app = App::new(Theme::default());
    for (id, name) in names {
        app.add_peer(&peer(*id, name));
    }
    app
}

#[test]
fn saves_ids_names_and_the_window_in_front() {
    let mut app = knowing(&[]);
    assert_eq!(app.save_windows(), "");
    app.focus_window(&peer(-100123, "Dev Chat"));
    app.focus_window(&peer(5, "Bob"));
    assert_eq!(app.save_windows(), "-100123|Dev Chat\n5|Bob\n");
    app.select(1);
    assert_eq!(app.save_windows(), "ACTIVE=1\n-100123|Dev Chat\n5|Bob\n");
}

#[test]
fn saved_windows_come_back_in_order() {
    let chats = [(1, "Ann"), (2, "Bob"), (3, "Cy|d")];
    let mut app = knowing(&chats);
    for (id, name) in chats {
        app.focus_window(&peer(id, name));
    }
    app.select(1);
    let saved = app.save_windows();
    let mut again = knowing(&chats);
    let r = again.restore_windows(&saved);
    assert!(matches!(r, Action::LoadHistory { win: 1, limit: 100, next: AfterHistory::Restored { count: 3 } }));
    assert_eq!(again.active, Some(1));
    let ids: Vec<i64> = again.windows.iter().map(|w| w.peer.id).collect();
    assert_eq!(ids, vec![1, 2, 3]);
    assert_eq!(again.save_windows(), saved);
}

#[test]
fn names_alone_are_restored_too() {
    let mut app = knowing(&[(1, "Ann"), (2, "Bob")]);
    let r = app.restore_windows("\n  bob \nnobody\n9|ANN\n");
    assert!(matches!(r, Action::LoadHistory { win: 0, next: AfterHistory::Restored { count: 2 }, .. }));
    assert_eq!(app.windows[0].name, "Bob");
    assert_eq!(app.windows[1].name, "Ann");
    assert_eq!(app.active, Some(0));
}

#[test]
fn the_window_in_front_is_one_that_exists() {
    let mut app = knowing(&[(1, "Ann")]);
    let r = app.restore_windows("ACTIVE=7\n1|Ann\n1|Ann\n");
    assert!(matches!(r, Action::LoadHistory { win: 0, next: AfterHistory::Restored { count: 2 }, .. }));
    assert_eq!(app.windows.len(), 1);
    assert_eq!(app.active, Some(0));
    let mut app = knowing(&[(1, "Ann")]);
    app.restore_windows("ACTIVE=x\n1|Ann\n");
    assert_eq!(app.active, Some(0));
}

#[test]
fn nothing_known_restores_nothing() {
    let mut app = knowing(&[]);
    let r = app.restore_windows("ACTIVE=0\n1|Ann\n");
    assert!(matches!(r, Action::Done));
    assert_eq!(app.active, None);
    assert!(app.windows.is_empty());
}

#[test]
fn the_number_decides_and_the_name_is_for_the_rest() {
    let mut app = knowing(&[(1, "Ann"), (2, "ann"), (-3, "Bob")]);
    app.focus_window(&peer(1, "Ann"));
    app.focus_window(&peer(2, "ann"));
    app.focus_window(&peer(-3, "Robert "));
    let saved = app.save_windows();
    assert_eq!(saved, "1|Ann\n2|ann\n-3|Robert \n");
    let mut again = knowing(&[(1, "Ann"), (2, "ann"), (-3, "Bob")]);
    again.restore_windows(&saved);
    let ids: Vec<i64> = again.windows.iter().map(|w| w.peer.id).collect();
    assert_eq!(ids, vec![1, 2, -3]);
    assert_eq!(again.windows[2].name, "Bob");
    assert_eq!(again.recall("7|bob").unwrap().id, -3);
    assert_eq!(again.recall("x|bob").unwrap().id, -3);
    assert_eq!(again.recall("ANN").unwrap().id, 2);
    assert!(again.recall("7|zed").is_none());
    assert!(again.find_peer(7).is_none());
    assert_eq!(again.find_peer(1).unwrap().id, 1);
}
