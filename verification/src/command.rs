//! The grammar of the command line.
use vstd::prelude::*;
use crate::text::{
    decimal_of, first_word, first_word_of, has_prefix, is_digit, is_white, lemma_decimal_reads_back,
    lemma_decimal_value, lemma_not_prefix, lemma_trim_clean, parse_usize, same, starts_with,
    strip_prefix, trim, trimmed, usize_of,
};

verus! {

/// What a command that names a chat does with it.
#[derive(Clone, Copy, Debug, PartialEq, Eq, Structural)]
pub enum OpenKind {
    /// Open its window.
    Join,
    /// Open its window and send the rest of the line, if any.
    Message,
    /// Open its window and slap.
    Trout,
}

/// A command line taken apart.
#[derive(Debug)]
pub enum Command {
    Nothing,
    Quit,
    /// Switch to the window of this number.
    Switch { number: usize },
    /// List the windows.
    Windows,
    /// Close the window in front.
    Close,
    /// Close the window of this number.
    CloseNumber { number: usize },
    /// List the chats whose names hold `query`.
    List { query: String },
    /// List the members of a chat.
    Names { target: String },
    Topic,
    Whois { target: String },
    Search { query: String },
    /// Open the chat that `rest` starts with.
    Open { kind: OpenKind, rest: String },
    Me { action: String },
    Reload,
    Help,
    /// Something else that starts with a slash.
    Unknown { word: String },
    /// A line to send.
    Say { text: String },
}

/// The model of a command line.
#[verifier::ext_equal]
pub enum CommandView {
    Nothing,
    Quit,
    Switch { number: usize },
    Windows,
    Close,
    CloseNumber { number: usize },
    List { query: Seq<char> },
    Names { target: Seq<char> },
    Topic,
    Whois { target: Seq<char> },
    Search { query: Seq<char> },
    Open { kind: OpenKind, rest: Seq<char> },
    Me { action: Seq<char> },
    Reload,
    Help,
    Unknown { word: Seq<char> },
    Say { text: Seq<char> },
}

impl View for Command {
    type V = CommandView;

    open spec fn view(&self) -> CommandView {
        match *self {
            Command::Nothing => CommandView::Nothing,
            Command::Quit => CommandView::Quit,
            Command::Switch { number } => CommandView::Switch { number },
            Command::Windows => CommandView::Windows,
            Command::Close => CommandView::Close,
            Command::CloseNumber { number } => CommandView::CloseNumber { number },
            Command::List { query } => CommandView::List { query: query@ },
            Command::Names { target } => CommandView::Names { target: target@ },
            Command::Topic => CommandView::Topic,
            Command::Whois { target } => CommandView::Whois { target: target@ },
            Command::Search { query } => CommandView::Search { query: query@ },
            Command::Open { kind, rest } => CommandView::Open { kind, rest: rest@ },
            Command::Me { action } => CommandView::Me { action: action@ },
            Command::Reload => CommandView::Reload,
            Command::Help => CommandView::Help,
            Command::Unknown { word } => CommandView::Unknown { word: word@ },
            Command::Say { text } => CommandView::Say { text: text@ },
        }
    }
}

/// The rest of `text` behind a prefix it has, trimmed.
pub open spec fn argument(text: Seq<char>, prefix: Seq<char>) -> Seq<char> {
    trim(text.skip(prefix.len() as int))
}

/// The window number behind `/win` or `/screen`, if `text` gives one.
pub open spec fn switch_number(text: Seq<char>) -> Option<usize> {
    if has_prefix(text, "/win "@) {
        usize_of(argument(text, "/win "@))
    } else if has_prefix(text, "/screen "@) {
        usize_of(argument(text, "/screen "@))
    } else {
        None
    }
}

/// The command to close a window, by what follows it.
pub open spec fn close_command(rest: Seq<char>) -> CommandView {
    if rest.len() == 0 {
        CommandView::Close
    } else {
        match usize_of(rest) {
            Some(number) => CommandView::CloseNumber { number },
            None => CommandView::Nothing,
        }
    }
}

/// The command that names a chat, if `text` is one.
pub open spec fn open_command(text: Seq<char>) -> Option<CommandView> {
    if has_prefix(text, "/join "@) {
        Some(CommandView::Open { kind: OpenKind::Join, rest: argument(text, "/join "@) })
    } else if has_prefix(text, "/msg "@) {
        Some(CommandView::Open { kind: OpenKind::Message, rest: argument(text, "/msg "@) })
    } else if has_prefix(text, "/query "@) {
        Some(CommandView::Open { kind: OpenKind::Message, rest: argument(text, "/query "@) })
    } else if has_prefix(text, "/trout "@) {
        Some(CommandView::Open { kind: OpenKind::Trout, rest: argument(text, "/trout "@) })
    } else if has_prefix(text, "/privmsg "@) {
        Some(CommandView::Open { kind: OpenKind::Message, rest: argument(text, "/privmsg "@) })
    } else {
        None
    }
}

/// The command that a trimmed line with neither window nor chat commands is.
pub open spec fn other_command(text: Seq<char>) -> CommandView {
    if has_prefix(text, "/me "@) {
        CommandView::Me { action: argument(text, "/me "@) }
    } else if text == "/reload"@ {
        CommandView::Reload
    } else if text == "/help"@ {
        CommandView::Help
    } else if has_prefix(text, "/"@) {
        CommandView::Unknown { word: first_word_of(text) }
    } else {
        CommandView::Say { text }
    }
}

/// The command that a trimmed line without window commands is.
pub open spec fn chat_command(text: Seq<char>) -> CommandView {
    if has_prefix(text, "/list"@) {
        CommandView::List { query: argument(text, "/list"@) }
    } else if has_prefix(text, "/chats"@) {
        CommandView::List { query: argument(text, "/chats"@) }
    } else if has_prefix(text, "/names"@) {
        CommandView::Names { target: argument(text, "/names"@) }
    } else if has_prefix(text, "/topic"@) {
        CommandView::Topic
    } else if has_prefix(text, "/whois "@) {
        CommandView::Whois { target: argument(text, "/whois "@) }
    } else if has_prefix(text, "/search "@) {
        CommandView::Search { query: argument(text, "/search "@) }
    } else {
        match open_command(text) {
            Some(c) => c,
            None => other_command(text),
        }
    }
}

/// The command that a line is.
pub open spec fn command_of(line: Seq<char>) -> CommandView {
    let text = trim(line);
    if text.len() == 0 {
        CommandView::Nothing
    } else if text == "/quit"@ || has_prefix(text, "/quit "@) {
        CommandView::Quit
    } else {
        match switch_number(text) {
            Some(number) => CommandView::Switch { number },
            None => if text == "/win"@ || text == "/screen"@ {
                CommandView::Windows
            } else if has_prefix(text, "/close"@) {
                close_command(argument(text, "/close"@))
            } else {
                chat_command(text)
            },
        }
    }
}

fn parse_switch(text: &str) -> (r: Option<usize>)
    ensures
        r == switch_number(text@),
{
    if let Some(r) = strip_prefix(text, "/win ") {
        parse_usize(trimmed(r))
    } else if let Some(r) = strip_prefix(text, "/screen ") {
        parse_usize(trimmed(r))
    } else {
        None
    }
}

fn parse_close(rest: &str) -> (c: Command)
    ensures
        c@ == close_command(rest@),
{
    if rest.unicode_len() == 0 {
        Command::Close
    } else {
        match parse_usize(rest) {
            Some(number) => Command::CloseNumber { number },
            None => Command::Nothing,
        }
    }
}

fn open_with(kind: OpenKind, rest: &str) -> (c: Command)
    ensures
        c@ == (CommandView::Open { kind, rest: trim(rest@) }),
{
    Command::Open { kind, rest: trimmed(rest).to_owned() }
}

fn parse_open(text: &str) -> (r: Option<Command>)
    ensures
        match r {
            Some(c) => open_command(text@) == Some(c@),
            None => open_command(text@) is None,
        },
{
    if let Some(r) = strip_prefix(text, "/join ") {
        Some(open_with(OpenKind::Join, r))
    } else if let Some(r) = strip_prefix(text, "/msg ") {
        Some(open_with(OpenKind::Message, r))
    } else if let Some(r) = strip_prefix(text, "/query ") {
        Some(open_with(OpenKind::Message, r))
    } else if let Some(r) = strip_prefix(text, "/trout ") {
        Some(open_with(OpenKind::Trout, r))
    } else if let Some(r) = strip_prefix(text, "/privmsg ") {
        Some(open_with(OpenKind::Message, r))
    } else {
        None
    }
}

fn parse_other(text: &str) -> (c: Command)
    ensures
        c@ == other_command(text@),
{
    if let Some(r) = strip_prefix(text, "/me ") {
        Command::Me { action: trimmed(r).to_owned() }
    } else if same(text, "/reload") {
        Command::Reload
    } else if same(text, "/help") {
        Command::Help
    } else if starts_with(text, "/") {
        Command::Unknown { word: first_word(text).to_owned() }
    } else {
        Command::Say { text: text.to_owned() }
    }
}

fn parse_chat(text: &str) -> (c: Command)
    ensures
        c@ == chat_command(text@),
{
    if let Some(r) = strip_prefix(text, "/list") {
        Command::List { query: trimmed(r).to_owned() }
    } else if let Some(r) = strip_prefix(text, "/chats") {
        Command::List { query: trimmed(r).to_owned() }
    } else if let Some(r) = strip_prefix(text, "/names") {
        Command::Names { target: trimmed(r).to_owned() }
    } else if starts_with(text, "/topic") {
        Command::Topic
    } else if let Some(r) = strip_prefix(text, "/whois ") {
        Command::Whois { target: trimmed(r).to_owned() }
    } else if let Some(r) = strip_prefix(text, "/search ") {
        Command::Search { query: trimmed(r).to_owned() }
    } else {
        match parse_open(text) {
            Some(c) => c,
            None => parse_other(text),
        }
    }
}

/// Takes a command line apart.
pub fn parse_command(line: &str) -> (c: Command)
    ensures
        c@ == command_of(line@),
{
    let text = trimmed(line);
    if text.unicode_len() == 0 {
        return Command::Nothing;
    }
    if same(text, "/quit") || starts_with(text, "/quit ") {
        return Command::Quit;
    }
    if let Some(number) = parse_switch(text) {
        return Command::Switch { number };
    }
    if same(text, "/win") || same(text, "/screen") {
        return Command::Windows;
    }
    match strip_prefix(text, "/close") {
        Some(rest) => parse_close(trimmed(rest)),
        None => parse_chat(text),
    }
}

// ── What lines are ───────────────────────────────────────────────────────────

proof fn lemma_prefix_first(s: Seq<char>, p: Seq<char>)
    ensures
        has_prefix(s, p) && p.len() > 0 ==> s.len() > 0 && s[0] == p[0],
{
    if has_prefix(s, p) && p.len() > 0 {
        assert(s.take(p.len() as int)[0] == s[0]);
    }
}

/// A line that starts with a slash is never something to say, and every other line
/// that is not empty is: all of it, but for white space around it.
pub proof fn plain_lines_are_said(line: Seq<char>)
    requires
        trim(line).len() > 0,
    ensures
        trim(line)[0] == '/' ==> !(command_of(line) is Say),
        trim(line)[0] != '/' ==> command_of(line) == (CommandView::Say { text: trim(line) }),
{
    reveal_strlit("/quit");
    reveal_strlit("/quit ");
    reveal_strlit("/win ");
    reveal_strlit("/screen ");
    reveal_strlit("/win");
    reveal_strlit("/screen");
    reveal_strlit("/close");
    reveal_strlit("/list");
    reveal_strlit("/chats");
    reveal_strlit("/names");
    reveal_strlit("/topic");
    reveal_strlit("/whois ");
    reveal_strlit("/search ");
    reveal_strlit("/join ");
    reveal_strlit("/msg ");
    reveal_strlit("/query ");
    reveal_strlit("/trout ");
    reveal_strlit("/privmsg ");
    reveal_strlit("/me ");
    reveal_strlit("/reload");
    reveal_strlit("/help");
    reveal_strlit("/");
    let text = trim(line);
    if text[0] == '/' {
        assert(text.take(1) =~= "/"@);
        assert(has_prefix(text, "/"@));
    } else {
        lemma_prefix_first(text, "/quit"@);
        lemma_prefix_first(text, "/quit "@);
        lemma_prefix_first(text, "/win "@);
        lemma_prefix_first(text, "/screen "@);
        lemma_prefix_first(text, "/win"@);
        lemma_prefix_first(text, "/screen"@);
        lemma_prefix_first(text, "/close"@);
        lemma_prefix_first(text, "/list"@);
        lemma_prefix_first(text, "/chats"@);
        lemma_prefix_first(text, "/names"@);
        lemma_prefix_first(text, "/topic"@);
        lemma_prefix_first(text, "/whois "@);
        lemma_prefix_first(text, "/search "@);
        lemma_prefix_first(text, "/join "@);
        lemma_prefix_first(text, "/msg "@);
        lemma_prefix_first(text, "/query "@);
        lemma_prefix_first(text, "/trout "@);
        lemma_prefix_first(text, "/privmsg "@);
        lemma_prefix_first(text, "/me "@);
        lemma_prefix_first(text, "/reload"@);
        lemma_prefix_first(text, "/help"@);
        lemma_prefix_first(text, "/"@);
    }
}

proof fn lemma_line_clean(head: Seq<char>, rest: Seq<char>)
    requires
        head.len() > 0,
        head[0] == '/',
        rest.len() > 0,
        !is_white(rest[0]),
        !is_white(rest.last()),
    ensures
        trim(head + rest) == head + rest,
        has_prefix(head + rest, head),
        argument(head + rest, head) == rest,
{
    let line = head + rest;
    lemma_trim_clean(line);
    assert(line.take(head.len() as int) =~= head);
    assert(line.skip(head.len() as int) =~= rest);
    lemma_trim_clean(rest);
}

/// The command to switch windows, followed by a number, is to switch to the window
/// of that number.
pub proof fn win_takes_a_number(n: usize)
    ensures
        command_of("/win "@ + decimal_of(n as nat)) == (CommandView::Switch { number: n }),
{
    reveal_strlit("/win ");
    reveal_strlit("/quit");
    reveal_strlit("/quit ");
    let rest = decimal_of(n as nat);
    lemma_decimal_value(n as nat);
    lemma_decimal_reads_back(n);
    assert(is_digit(rest[0]));
    assert(is_digit(rest.last()));
    lemma_line_clean("/win "@, rest);
    let line = "/win "@ + rest;
    lemma_not_prefix(line, "/quit"@, 1);
    lemma_not_prefix(line, "/quit "@, 1);
}

/// The command to message somebody takes what follows it, where that neither
/// starts nor ends in white space.
pub proof fn msg_takes_its_argument(rest: Seq<char>)
    requires
        rest.len() > 0,
        !is_white(rest[0]),
        !is_white(rest.last()),
    ensures
        command_of("/msg "@ + rest) == (CommandView::Open { kind: OpenKind::Message, rest }),
{
    reveal_strlit("/quit");
    reveal_strlit("/quit ");
    reveal_strlit("/win ");
    reveal_strlit("/screen ");
    reveal_strlit("/win");
    reveal_strlit("/screen");
    reveal_strlit("/close");
    reveal_strlit("/list");
    reveal_strlit("/chats");
    reveal_strlit("/names");
    reveal_strlit("/topic");
    reveal_strlit("/whois ");
    reveal_strlit("/search ");
    reveal_strlit("/join ");
    reveal_strlit("/msg ");
    reveal_strlit("/query ");
    reveal_strlit("/trout ");
    reveal_strlit("/privmsg ");
    reveal_strlit("/me ");
    reveal_strlit("/reload");
    reveal_strlit("/help");
    reveal_strlit("/");
    let line = "/msg "@ + rest;
    lemma_line_clean("/msg "@, rest);
    lemma_not_prefix(line, "/quit"@, 1);
    lemma_not_prefix(line, "/quit "@, 1);
    lemma_not_prefix(line, "/win "@, 1);
    lemma_not_prefix(line, "/screen "@, 1);
    lemma_not_prefix(line, "/win"@, 1);
    lemma_not_prefix(line, "/screen"@, 1);
    lemma_not_prefix(line, "/close"@, 1);
    lemma_not_prefix(line, "/list"@, 1);
    lemma_not_prefix(line, "/chats"@, 1);
    lemma_not_prefix(line, "/names"@, 1);
    lemma_not_prefix(line, "/topic"@, 1);
    lemma_not_prefix(line, "/whois "@, 1);
    lemma_not_prefix(line, "/search "@, 1);
    lemma_not_prefix(line, "/join "@, 1);
}

} // verus!
