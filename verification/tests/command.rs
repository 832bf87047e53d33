use irssi_tg::command::{parse_command, Command, OpenKind};

#[test]
fn empty_lines_do_nothing() {
    assert!(matches!(parse_command("   "), Command::Nothing));
    assert!(matches!(parse_command(""), Command::Nothing));
}

#[test]
fn quits() {
    assert!(matches!(parse_command(" /quit "), Command::Quit));
    assert!(matches!(parse_command("/quit now"), Command::Quit));
    assert!(matches!(parse_command("/quitter"), Command::Unknown { word } if word == "/quitter"));
}

#[test]
fn switches_and_lists_windows() {
    assert!(matches!(parse_command("/win 3"), Command::Switch { number: 3 }));
    assert!(matches!(parse_command("/screen  1 "), Command::Switch { number: 1 }));
    assert!(matches!(parse_command("/win"), Command::Windows));
    assert!(matches!(parse_command("/screen"), Command::Windows));
    assert!(matches!(parse_command("/win x"), Command::Unknown { word } if word == "/win"));
    for n in [0usize, 1, 2, 17, usize::MAX] {
        assert!(matches!(parse_command(&format!("/win {}", n)), Command::Switch { number } if number == n));
    }
}

#[test]
fn closes_windows() {
    assert!(matches!(parse_command("/close"), Command::Close));
    assert!(matches!(parse_command("/close 4"), Command::CloseNumber { number: 4 }));
    assert!(matches!(parse_command("/close4"), Command::CloseNumber { number: 4 }));
    assert!(matches!(parse_command("/close x"), Command::Nothing));
}

#[test]
fn lists_chats_under_two_names() {
    assert!(matches!(parse_command("/list"), Command::List { query } if query.is_empty()));
    assert!(matches!(parse_command("/list Bo "), Command::List { query } if query == "Bo"));
    assert!(matches!(parse_command("/chats Bo"), Command::List { query } if query == "Bo"));
}

#[test]
fn asks_about_people() {
    assert!(matches!(parse_command("/names"), Command::Names { target } if target.is_empty()));
    assert!(matches!(parse_command("/names  dev "), Command::Names { target } if target == "dev"));
    assert!(matches!(parse_command("/topic x"), Command::Topic));
    assert!(matches!(parse_command("/whois  bob"), Command::Whois { target } if target == "bob"));
    assert!(matches!(parse_command("/whois"), Command::Unknown { word } if word == "/whois"));
    assert!(matches!(parse_command("/search  a b "), Command::Search { query } if query == "a b"));
}

#[test]
fn opens_chats() {
    for (line, want) in [
        ("/join bob", OpenKind::Join),
        ("/msg bob", OpenKind::Message),
        ("/query bob", OpenKind::Message),
        ("/privmsg bob", OpenKind::Message),
        ("/trout bob", OpenKind::Trout),
    ] {
        assert!(matches!(parse_command(line), Command::Open { kind, rest } if kind == want && rest == "bob"));
    }
    assert!(matches!(parse_command("/msg bob hi  there"), Command::Open { rest, .. } if rest == "bob hi  there"));
}

#[test]
fn other_commands() {
    assert!(matches!(parse_command("/me  waves "), Command::Me { action } if action == "waves"));
    assert!(matches!(parse_command("/reload"), Command::Reload));
    assert!(matches!(parse_command("/help"), Command::Help));
    assert!(matches!(parse_command("/foo bar"), Command::Unknown { word } if word == "/foo"));
    assert!(matches!(parse_command("/"), Command::Unknown { word } if word == "/"));
}

#[test]
fn plain_lines_are_said_and_slash_lines_are_not() {
    assert!(matches!(parse_command("  hi /quit "), Command::Say { text } if text == "hi /quit"));
    assert!(!matches!(parse_command("/ hi"), Command::Say { .. }));
}
