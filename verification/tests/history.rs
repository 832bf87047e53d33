use irssi_tg::app::App;
use irssi_tg::history::{caption, describe_media, message_path, Media, Message};
use irssi_tg::peer::Peer;
use irssi_tg::theme::Theme;

fn s(x: &str) -> String {
    x.to_string()
}

fn msg(sender: Option<&str>, text: &str, outgoing: bool) -> Message {
    Message { date: 0, sender: sender.map(s), text: s(text), media: None, outgoing }
}

fn client() -> App {
    let mut app = App::new(Theme::default());
    app.focus_window(&Peer { id: 1, name: Some(s("Dev")), username: None });
    app
}

#[test]
fn media_have_labels() {
    let doc = |name: Option<&str>, mime: Option<&str>| Media::Document { name: name.map(s), mime: mime.map(s) };
    assert_eq!(describe_media(&Media::Sticker { emoji: Some(s("😀")) }), "[Sticker 😀]");
    assert_eq!(describe_media(&Media::Sticker { emoji: None }), "[Sticker ?]");
    let photo = Media::Photo { path: message_path(Some("rustlang"), 5, 42) };
    assert_eq!(describe_media(&photo), "[Photo: t.me/rustlang/42]");
    assert_eq!(describe_media(&doc(Some("a.mp4"), Some("video/mp4"))), "[Video: a.mp4]");
    assert_eq!(describe_media(&doc(Some("a.ogg"), Some("audio/ogg"))), "[Audio: a.ogg]");
    assert_eq!(describe_media(&doc(Some("a.gif"), Some("image/gif"))), "[GIF/Anim]");
    assert_eq!(describe_media(&doc(None, Some("image/webp"))), "[GIF/Anim]");
    assert_eq!(describe_media(&doc(None, None)), "[File: file]");
    assert_eq!(describe_media(&doc(Some("a.pdf"), Some("application/pdf"))), "[File: a.pdf]");
    assert_eq!(describe_media(&Media::Contact { first: s("Ann"), last: Some(s("Lee")) }), "[Contact: Ann Lee]");
    assert_eq!(describe_media(&Media::Contact { first: s("Ann"), last: None }), "[Contact: Ann ]");
    assert_eq!(describe_media(&Media::Geo { coordinates: s("1.0000,2.0000") }), "[Location: 1.0000,2.0000]");
    assert_eq!(describe_media(&Media::GeoLive { coordinates: s("1.0000,2.0000") }), "[Live Location: 1.0000,2.0000]");
    assert_eq!(describe_media(&Media::Poll { question: s("Why?") }), "[Poll: Why?]");
    assert_eq!(describe_media(&Media::Venue { title: s("Pub") }), "[Venue: Pub]");
    assert_eq!(describe_media(&Media::Other), "[Media]");
}

#[test]
fn messages_have_paths() {
    assert_eq!(message_path(Some("ann"), 7, 3), "ann/3");
    assert_eq!(message_path(None, 1234567890, 3), "c/1234567890/3");
    assert_eq!(message_path(None, -7, -3), "c/-7/-3");
}

#[test]
fn captions_join_labels_and_text() {
    assert_eq!(caption("hi", &None), Some(s("hi")));
    assert_eq!(caption("", &None), None);
    let photo = Some(Media::Photo { path: s("c/5/42") });
    assert_eq!(caption("", &photo), Some(s("[Photo: t.me/c/5/42]")));
    assert_eq!(caption("hi", &photo), Some(s("[Photo: t.me/c/5/42] hi")));
}

#[test]
fn the_past_is_shown_oldest_first() {
    let mut app = client();
    app.push_window_line(0, App::make_sys_line("gone"));
    app.windows[0].nicks.push(s("Bob"));
    let msgs = vec![
        msg(Some("Ann"), "three", false),
        msg(None, "", false),
        msg(Some("Me"), "two", true),
        msg(Some("Bob"), "one", false),
    ];
    let stamps = vec![s("10:04"), s("10:03"), s("10:02"), s("10:01")];
    app.show_history(0, &msgs, &stamps);
    let l = &app.windows[0].lines;
    assert_eq!(l.len(), 4);
    assert_eq!((l[0].ts.as_str(), l[0].prefix.as_str(), l[0].text.as_str()), ("10:01", "<Bob>", "one"));
    assert_eq!((l[1].prefix.as_str(), l[1].text.as_str()), ("<You>", "two"));
    assert_eq!(l[1].nick, Some(s("You")));
    assert_eq!((l[2].prefix.as_str(), l[2].text.as_str()), ("<Unknown>", "[media]"));
    assert_eq!((l[3].ts.as_str(), l[3].prefix.as_str(), l[3].text.as_str()), ("10:04", "<Ann>", "three"));
    assert!(!l[3].is_sys && !l[3].is_highlight);
    assert!(l.iter().all(|x| x.read_in));
    assert_eq!(app.windows[0].nicks, vec!["Bob", "Unknown", "Ann"]);
}

#[test]
fn messages_are_stamped_with_local_time() {
    let mut app = client();
    app.load_history(0, &vec![msg(Some("Ann"), "hi", false)]);
    let ts = &app.windows[0].lines[0].ts;
    assert_eq!(ts.len(), 5);
    assert_eq!(&ts[2..3], ":");
    app.refresh_history(0, &vec![msg(Some("Ann"), "hi", false)]);
    assert_eq!(app.windows[0].lines.len(), 1);
    app.refresh_history(0, &vec![msg(Some("Ann"), "again", false)]);
    assert_eq!(app.windows[0].lines.len(), 2);
}

#[test]
fn refreshing_adds_what_is_new() {
    let mut app = client();
    let stamps = vec![s("10:02"), s("10:01")];
    app.show_refresh(0, &vec![msg(Some("Ann"), "two", false), msg(Some("Bob"), "one", false)], &stamps);
    let texts: Vec<String> = app.windows[0].lines.iter().map(|l| l.text.clone()).collect();
    assert_eq!(texts, vec!["one", "two"]);
    assert!(app.windows[0].nicks.is_empty());
    let stamps = vec![s("10:03"), s("10:03"), s("10:02"), s("10:01")];
    let msgs = vec![msg(None, "three", true), msg(None, "", false), msg(Some("Ann"), "two", false), msg(Some("Bob"), "one", false)];
    app.show_refresh(0, &msgs, &stamps);
    let texts: Vec<String> = app.windows[0].lines.iter().map(|l| l.text.clone()).collect();
    assert_eq!(texts, vec!["one", "two", "three"]);
    assert_eq!(app.windows[0].lines[2].prefix, "<You>");
}

#[test]
fn refreshing_looks_at_the_newest_lines_only() {
    let mut app = client();
    app.show_refresh(0, &vec![msg(Some("Ann"), "old", false)], &vec![s("10:00")]);
    for i in 0..29 {
        app.show_refresh(0, &vec![msg(Some("Ann"), &i.to_string(), false)], &vec![s("10:01")]);
    }
    app.show_refresh(0, &vec![msg(Some("Ann"), "old", false)], &vec![s("10:00")]);
    assert_eq!(app.windows[0].lines.len(), 30);
    app.show_refresh(0, &vec![msg(Some("Ann"), "29", false)], &vec![s("10:01")]);
    app.show_refresh(0, &vec![msg(Some("Ann"), "old", false)], &vec![s("10:00")]);
    assert_eq!(app.windows[0].lines.len(), 32);
}

#[test]
fn refreshing_twice_adds_nothing() {
    let mut app = client();
    for i in 0..10 {
        app.push_window_line(0, App::make_sys_line(&i.to_string()));
    }
    let msgs: Vec<Message> = (0..20).map(|i| msg(Some("Ann"), &format!("m{}", i % 15), i % 2 == 0)).collect();
    let stamps: Vec<String> = (0..20).map(|i| format!("10:{:02}", i)).collect();
    app.show_refresh(0, &msgs, &stamps);
    let once: Vec<String> = app.windows[0].lines.iter().map(|l| l.text.clone()).collect();
    assert_eq!(once.len(), 30);
    app.show_refresh(0, &msgs, &stamps);
    let twice: Vec<String> = app.windows[0].lines.iter().map(|l| l.text.clone()).collect();
    assert_eq!(once, twice);
}
