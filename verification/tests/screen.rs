use irssi_tg::app::{App, ChatLine, TabState, WindowActivity};
use irssi_tg::bar::{draw_topic_bar, draw_window_bar};
use irssi_tg::input::{draw_input_line, place_cursor};
use irssi_tg::pane::{draw_scrollback, first_shown, style_line};
use irssi_tg::peer::Peer;
use irssi_tg::style::Span;
use irssi_tg::theme::{Color, Theme};
use irssi_tg::ui::{ui, ui_at, Area};

fn s(x: &str) -> String {
    x.to_string()
}

fn client(names: &[&str]) -> App {
    let mut app = App::new(Theme::default());
    for (i, name) in names.iter().enumerate() {
        app.focus_window(&Peer { id: i as i64, name: Some(s(name)), username: None });
    }
    app
}

fn text(spans: &Vec<Span>) -> String {
    spans.iter().map(|x| x.text.clone()).collect()
}

fn line(ts: &str, prefix: &str, text: &str) -> ChatLine {
    ChatLine { ts: s(ts), prefix: s(prefix), text: s(text), is_sys: false, is_highlight: false, nick: None, read_in: false }
}

fn tab(names: &[&str], idx: usize) -> Option<TabState> {
    Some(TabState {
        candidates: names.iter().map(|n| s(n)).collect(),
        idx,
        cmd_prefix: s("/join "),
        word_start: s("a"),
    })
}

#[test]
fn the_topic_bar_tells_where_something_happened() {
    let mut app = client(&["Ann", "Bob", "Cyd"]);
    let bar = draw_topic_bar(&app, "10:00", 40);
    assert_eq!(bar.text, format!("{:<40}", " irssi-tg | (status) | 10:00"));
    assert_eq!((bar.fg, bar.bg, bar.bold), (Some(Color::White), Some(Color::Blue), true));
    app.windows[0].activity = WindowActivity::Text;
    app.windows[2].activity = WindowActivity::Highlight;
    app.select(1);
    assert_eq!(draw_topic_bar(&app, "10:00", 5).text, " irssi-tg | Bob | 10:00 Act: 2,4");
}

#[test]
fn an_empty_scrollback_says_so() {
    let app = client(&[]);
    let p = draw_scrollback(&app, 80, 24);
    assert!(!p.wrap);
    assert_eq!(p.rows.len(), 1);
    assert_eq!(text(&p.rows[0]), "No messages. /help for commands.");
    assert_eq!(p.rows[0][0].fg, Some(Color::DarkGray));
}

#[test]
fn lines_are_anchored_to_the_bottom() {
    let mut app = client(&[]);
    app.push_status_at("10:00", "one");
    app.push_status_at("10:01", "two");
    let p = draw_scrollback(&app, 80, 5);
    assert!(p.wrap);
    assert_eq!(p.rows.len(), 5);
    assert!(p.rows[2].is_empty());
    assert_eq!(text(&p.rows[3]), "10:00 -!- one");
    assert_eq!(text(&p.rows[4]), "10:01 -!- two");
}

#[test]
fn the_newest_lines_that_fit_are_shown() {
    let mut app = client(&[]);
    for i in 0..5 {
        app.push_status_at("10:00", &i.to_string());
    }
    app.push_status_at("10:00", "0123456789");
    let p = draw_scrollback(&app, 12, 4);
    assert_eq!(p.rows.len(), 3);
    assert_eq!(text(&p.rows[0]), "10:00 -!- 3");
    assert_eq!(text(&p.rows[2]), "10:00 -!- 0123456789");
    let p = draw_scrollback(&app, 12, 1);
    assert_eq!(p.rows.len(), 1);
    assert!(p.rows[0].is_empty());
    let p = draw_scrollback(&app, 0, 20);
    assert_eq!(p.rows.len(), 1);
    assert_eq!(text(&p.rows[0]), "10:00 -!- 0123456789");
    assert_eq!(draw_scrollback(&app, 0, 21).rows.len(), 2);
    assert_eq!(draw_scrollback(&app, 80, 0).rows.len(), 0);
}

#[test]
fn wide_characters_take_two_columns() {
    let mut app = client(&["Ann"]);
    app.select(0);
    app.push_window_line(0, line("10:00", "<A>", "日本語"));
    let p = draw_scrollback(&app, 16, 3);
    assert_eq!(p.rows.len(), 3);
    let p = draw_scrollback(&app, 15, 3);
    assert_eq!(p.rows.len(), 2);
}

#[test]
fn lines_are_coloured() {
    let t = Theme::default();
    let mut l = line("10:00", "<a>", "hi");
    let r = style_line(&l, &t);
    assert_eq!((r[0].text.as_str(), r[0].fg, r[0].bold), ("10:00 ", Some(Color::DarkGray), false));
    assert_eq!((r[1].text.as_str(), r[1].fg, r[1].bold), ("<a> ", Some(Color::White), true));
    assert_eq!((r[2].text.as_str(), r[2].fg, r[2].bg), ("hi", Some(Color::Reset), None));
    l.nick = Some(s("a"));
    assert_eq!(style_line(&l, &t)[1].fg, Some(Color::LightYellow));
    l.is_highlight = true;
    let r = style_line(&l, &t);
    assert_eq!(r.len(), 2);
    assert_eq!((r[1].text.as_str(), r[1].fg, r[1].bold), ("<a> hi", Some(Color::Magenta), true));
    l.is_sys = true;
    let r = style_line(&l, &t);
    assert_eq!((r[1].text.as_str(), r[1].fg, r[1].bold), ("<a> ", Some(Color::Cyan), true));
    assert_eq!((r[2].text.as_str(), r[2].fg, r[2].bold), ("hi", Some(Color::Cyan), false));
}

#[test]
fn the_window_bar_names_the_windows() {
    let mut app = client(&["Ann", "Bob", "Cyd"]);
    app.windows[0].activity = WindowActivity::Text;
    app.windows[0].unread = 3;
    app.windows[1].activity = WindowActivity::Highlight;
    app.windows[1].unread = 1;
    let bar = draw_window_bar(&app, 60);
    assert_eq!(text(&bar), format!("{:<60}", "[1*(status)] [2+Ann(3)] [3+Bob(1)] [4Cyd] "));
    assert_eq!((bar[0].fg, bar[0].bold), (Some(Color::White), true));
    assert_eq!((bar[1].fg, bar[1].bold), (Some(Color::White), false));
    assert_eq!((bar[2].fg, bar[2].bold), (Some(Color::Magenta), true));
    assert_eq!((bar[3].fg, bar[3].bold), (Some(Color::DarkGray), false));
    assert_eq!((bar[4].fg, bar[4].bg, bar[4].bold), (Some(Color::White), Some(Color::Blue), false));
    app.active = Some(1);
    let bar = draw_window_bar(&app, 10);
    assert_eq!(text(&bar), "<[3*Bob] >");
    assert_eq!((bar[1].fg, bar[1].bold), (Some(Color::White), true));
    assert_eq!(bar[0].fg, Some(Color::Magenta));
    app.active = Some(0);
    assert_eq!((draw_window_bar(&app, 80)[0].text.as_str(), draw_window_bar(&app, 80)[0].fg), ("[1(status)] ", Some(Color::DarkGray)));
}

#[test]
fn the_window_bar_always_shows_the_front() {
    let names: Vec<String> = (0..12).map(|i| format!("name{}", i)).collect();
    let refs: Vec<&str> = names.iter().map(|n| n.as_str()).collect();
    let mut app = client(&refs);
    for i in 0..12 {
        app.active = Some(i);
        for width in [0u16, 5, 12, 30, 55, 300] {
            let bar = draw_window_bar(&app, width);
            let t = text(&bar);
            assert!(t.contains(&format!("[{}*name{}] ", i + 2, i)));
            assert!(t.len() >= width as usize);
            assert!(t.len() <= width as usize + 2 || bar.len() <= 3);
        }
    }
    app.active = Some(6);
    assert_eq!(text(&draw_window_bar(&app, 35)), "<[8*name6] [9name7] [10name8] >    ");
    app.active = Some(11);
    assert_eq!(text(&draw_window_bar(&app, 35)), "<[11name9] [12name10] [13*name11]  ");
}

#[test]
fn the_input_line_scrolls() {
    let mut app = client(&[]);
    app.input = s("hello");
    let l = draw_input_line(&app, 0, 40);
    assert_eq!(text(&l.spans), "[(status)] hello");
    assert_eq!(l.cursor, 16);
    assert_eq!((l.spans[0].fg, l.spans[0].bold), (Some(Color::White), true));
    assert_eq!(l.spans[1].fg, Some(Color::Reset));
    app.input = s("abcdefghij");
    let l = draw_input_line(&app, 3, 16);
    assert_eq!(text(&l.spans), "[(status)] ‹fghij");
    assert_eq!(l.spans[1].fg, Some(Color::Magenta));
    assert_eq!(l.cursor, 18);
    let l = draw_input_line(&app, 3, 4);
    assert_eq!(text(&l.spans), "[(status)] ‹");
    assert_eq!(l.cursor, 6);
    assert_eq!(draw_input_line(&app, 3, 0).cursor, 3);
}

#[test]
fn other_candidates_are_hinted_at() {
    let mut app = client(&[]);
    app.input = s("/join a");
    app.tab = tab(&["a", "b", "c", "d", "e"], 1);
    let l = draw_input_line(&app, 0, 60);
    assert_eq!(text(&l.spans), "[(status)] /join a  [a | c | d]");
    assert_eq!(l.spans[2].fg, Some(Color::DarkGray));
    assert_eq!(draw_input_line(&app, 0, 24).spans.len(), 2);
    assert_eq!(draw_input_line(&app, 0, 25).spans.len(), 3);
    app.tab = tab(&["a", "b"], 0);
    assert_eq!(text(&draw_input_line(&app, 0, 60).spans), "[(status)] /join a  [b]");
    app.tab = tab(&["a"], 0);
    assert_eq!(draw_input_line(&app, 0, 60).spans.len(), 2);
}

#[test]
fn the_screen_has_four_rows() {
    let mut app = client(&["Ann"]);
    app.push_status_at("10:00", "one");
    let screen = ui(&app, Area { x: 0, y: 0, width: 80, height: 24 });
    assert_eq!(screen.rows.topic, Area { x: 0, y: 0, width: 80, height: 1 });
    assert_eq!(screen.rows.pane, Area { x: 0, y: 1, width: 80, height: 21 });
    assert_eq!(screen.rows.bar, Area { x: 0, y: 22, width: 80, height: 1 });
    assert_eq!(screen.rows.input, Area { x: 0, y: 23, width: 80, height: 1 });
    assert_eq!(screen.topic.text.len(), 80);
    assert_eq!(screen.pane.rows.len(), 21);
    assert_eq!(text(&screen.bar).len(), 80);
    assert_eq!(screen.input.cursor, 11);
    let screen = ui(&app, Area { x: 2, y: 3, width: 10, height: 4 });
    assert_eq!(screen.rows.pane, Area { x: 2, y: 4, width: 10, height: 1 });
    assert_eq!(screen.rows.input, Area { x: 2, y: 6, width: 10, height: 1 });
    let again = ui_at(&app, screen.rows, "10:00");
    assert_eq!(again.topic.text, " irssi-tg | (status) | 10:00");
    for h in 4..130 {
        let rows = ui(&app, Area { x: 3, y: 7, width: 40, height: h }).rows;
        assert_eq!(rows.topic, Area { x: 3, y: 7, width: 40, height: 1 });
        assert_eq!(rows.pane, Area { x: 3, y: 8, width: 40, height: h - 3 });
        assert_eq!(rows.bar, Area { x: 3, y: 5 + h, width: 40, height: 1 });
        assert_eq!(rows.input, Area { x: 3, y: 6 + h, width: 40, height: 1 });
    }
    for h in 0..4 {
        let rows = ui(&app, Area { x: 1, y: 0, width: 9, height: h }).rows;
        assert!(rows.pane.x == 1 && rows.pane.width == 9 && rows.input.width == 9);
    }
}

#[test]
fn the_first_line_shown_goes_by_columns() {
    let cols = vec![11, 11, 11, 20];
    assert_eq!(first_shown(&cols, 12, 4), (1, 0));
    assert_eq!(first_shown(&cols, 12, 3), (2, 0));
    assert_eq!(first_shown(&cols, 12, 5), (0, 0));
    assert_eq!(first_shown(&cols, 12, 9), (0, 4));
    assert_eq!(first_shown(&cols, 12, 1), (4, 1));
    assert_eq!(first_shown(&vec![usize::MAX], 1, 10), (1, 10));
    assert_eq!(first_shown(&vec![0, 0], 0, 1), (1, 0));
    assert_eq!(first_shown(&Vec::new(), 80, 24), (0, 24));
}

#[test]
fn the_cursor_stays_on_its_line() {
    assert_eq!(place_cursor(3, 40, 6, false, 5), 14);
    assert_eq!(place_cursor(3, 40, 6, true, 5), 15);
    assert_eq!(place_cursor(3, 10, 6, true, 50), 12);
    assert_eq!(place_cursor(3, 0, 6, false, 5), 3);
    assert_eq!(place_cursor(3, 40, 65536 + 6, false, 5), 14);
}
