//! What is promised of the commands: what lines they are, and what they do.
use vstd::prelude::*;
use crate::command::{argument, command_of, win_takes_a_number, CommandView, OpenKind};
use crate::text::{
    decimal_of, has_prefix, is_digit, is_white, lemma_decimal_reads_back, lemma_decimal_value,
    lemma_not_prefix, lemma_trim_clean, trim, trim_end, trim_start, usize_of, word_head,
};

verus! {

// ── What lines are ───────────────────────────────────────────────────────────

proof fn lemma_clean(head: Seq<char>, rest: Seq<char>)
    requires
        head.len() > 0,
        head[0] == '/',
        rest.len() > 0,
        !is_white(rest[0]),
        !is_white(rest.last()),
    ensures
        trim(head + rest) == head + rest,
        has_prefix(head + rest, head),
        argument(head + rest, head) == rest,
{
    let line = head + rest;
    assert(line[0] == head[0]);
    lemma_trim_clean(line);
    assert(line.take(head.len() as int) =~= head);
    assert(line.skip(head.len() as int) =~= rest);
    lemma_trim_clean(rest);
}

proof fn lemma_spelled()
    ensures
        "/quit"@ == seq!['/', 'q', 'u', 'i', 't'],
        "/quit "@ == seq!['/', 'q', 'u', 'i', 't', ' '],
        "/win "@ == seq!['/', 'w', 'i', 'n', ' '],
        "/screen "@ == seq!['/', 's', 'c', 'r', 'e', 'e', 'n', ' '],
        "/win"@ == seq!['/', 'w', 'i', 'n'],
        "/screen"@ == seq!['/', 's', 'c', 'r', 'e', 'e', 'n'],
        "/close"@ == seq!['/', 'c', 'l', 'o', 's', 'e'],
        "/list"@ == seq!['/', 'l', 'i', 's', 't'],
        "/chats"@ == seq!['/', 'c', 'h', 'a', 't', 's'],
        "/names"@ == seq!['/', 'n', 'a', 'm', 'e', 's'],
        "/topic"@ == seq!['/', 't', 'o', 'p', 'i', 'c'],
        "/whois "@ == seq!['/', 'w', 'h', 'o', 'i', 's', ' '],
        "/search "@ == seq!['/', 's', 'e', 'a', 'r', 'c', 'h', ' '],
        "/join "@ == seq!['/', 'j', 'o', 'i', 'n', ' '],
        "/msg "@ == seq!['/', 'm', 's', 'g', ' '],
        "/query "@ == seq!['/', 'q', 'u', 'e', 'r', 'y', ' '],
        "/trout "@ == seq!['/', 't', 'r', 'o', 'u', 't', ' '],
        "/privmsg "@ == seq!['/', 'p', 'r', 'i', 'v', 'm', 's', 'g', ' '],
        "/me "@ == seq!['/', 'm', 'e', ' '],
        "/reload"@ == seq!['/', 'r', 'e', 'l', 'o', 'a', 'd'],
        "/help"@ == seq!['/', 'h', 'e', 'l', 'p'],
        "/"@ == seq!['/'],
        "/list "@ == seq!['/', 'l', 'i', 's', 't', ' '],
        "/chats "@ == seq!['/', 'c', 'h', 'a', 't', 's', ' '],
        "/names "@ == seq!['/', 'n', 'a', 'm', 'e', 's', ' '],
{
    reveal_strlit("/quit");
    reveal_strlit("/quit ");
    reveal_strlit("/win ");
    reveal_strlit("/screen ");
    reveal_strlit("/win");
    reveal_strlit("/screen");
    reveal_strlit("/close");
    reveal_strlit("/list");
    reveal_strlit("/chats");
    reveal_strlit("/names");
    reveal_strlit("/topic");
    reveal_strlit("/whois ");
    reveal_strlit("/search ");
    reveal_strlit("/join ");
    reveal_strlit("/msg ");
    reveal_strlit("/query ");
    reveal_strlit("/trout ");
    reveal_strlit("/privmsg ");
    reveal_strlit("/me ");
    reveal_strlit("/reload");
    reveal_strlit("/help");
    reveal_strlit("/");
    reveal_strlit("/list ");
    reveal_strlit("/chats ");
    reveal_strlit("/names ");
}

proof fn lemma_join(rest: Seq<char>)
    requires
        rest.len() > 0,
        !is_white(rest[0]),
        !is_white(rest.last()),
    ensures
        command_of("/join "@ + rest) == (CommandView::Open { kind: OpenKind::Join, rest }),
{
    lemma_spelled();
    let line = "/join "@ + rest;
    lemma_clean("/join "@, rest);
    assert(line[1] == "/join "@[1]);
    assert(line[2] == "/join "@[2]);
    assert(line[3] == "/join "@[3]);
    lemma_not_prefix(line, "/quit"@, 1);
    lemma_not_prefix(line, "/quit "@, 1);
    lemma_not_prefix(line, "/win "@, 1);
    lemma_not_prefix(line, "/screen "@, 1);
    lemma_not_prefix(line, "/win"@, 1);
    lemma_not_prefix(line, "/screen"@, 1);
    lemma_not_prefix(line, "/close"@, 1);
    lemma_not_prefix(line, "/list"@, 1);
    lemma_not_prefix(line, "/chats"@, 1);
    lemma_not_prefix(line, "/names"@, 1);
    lemma_not_prefix(line, "/topic"@, 1);
    lemma_not_prefix(line, "/whois "@, 1);
    lemma_not_prefix(line, "/search "@, 1);
}

proof fn lemma_msg(rest: Seq<char>)
    requires
        rest.len() > 0,
        !is_white(rest[0]),
        !is_white(rest.last()),
    ensures
        command_of("/msg "@ + rest) == (CommandView::Open { kind: OpenKind::Message, rest }),
{
    lemma_spelled();
    let line = "/msg "@ + rest;
    lemma_clean("/msg "@, rest);
    assert(line[1] == "/msg "@[1]);
    assert(line[2] == "/msg "@[2]);
    assert(line[3] == "/msg "@[3]);
    lemma_not_prefix(line, "/quit"@, 1);
    lemma_not_prefix(line, "/quit "@, 1);
    lemma_not_prefix(line, "/win "@, 1);
    lemma_not_prefix(line, "/screen "@, 1);
    lemma_not_prefix(line, "/win"@, 1);
    lemma_not_prefix(line, "/screen"@, 1);
    lemma_not_prefix(line, "/close"@, 1);
    lemma_not_prefix(line, "/list"@, 1);
    lemma_not_prefix(line, "/chats"@, 1);
    lemma_not_prefix(line, "/names"@, 1);
    lemma_not_prefix(line, "/topic"@, 1);
    lemma_not_prefix(line, "/whois "@, 1);
    lemma_not_prefix(line, "/search "@, 1);
    lemma_not_prefix(line, "/join "@, 1);
}

proof fn lemma_query(rest: Seq<char>)
    requires
        rest.len() > 0,
        !is_white(rest[0]),
        !is_white(rest.last()),
    ensures
        command_of("/query "@ + rest) == (CommandView::Open { kind: OpenKind::Message, rest }),
{
    lemma_spelled();
    let line = "/query "@ + rest;
    lemma_clean("/query "@, rest);
    assert(line[1] == "/query "@[1]);
    assert(line[2] == "/query "@[2]);
    assert(line[3] == "/query "@[3]);
    lemma_not_prefix(line, "/quit"@, 3);
    lemma_not_prefix(line, "/quit "@, 3);
    lemma_not_prefix(line, "/win "@, 1);
    lemma_not_prefix(line, "/screen "@, 1);
    lemma_not_prefix(line, "/win"@, 1);
    lemma_not_prefix(line, "/screen"@, 1);
    lemma_not_prefix(line, "/close"@, 1);
    lemma_not_prefix(line, "/list"@, 1);
    lemma_not_prefix(line, "/chats"@, 1);
    lemma_not_prefix(line, "/names"@, 1);
    lemma_not_prefix(line, "/topic"@, 1);
    lemma_not_prefix(line, "/whois "@, 1);
    lemma_not_prefix(line, "/search "@, 1);
    lemma_not_prefix(line, "/join "@, 1);
    lemma_not_prefix(line, "/msg "@, 1);
}

proof fn lemma_privmsg(rest: Seq<char>)
    requires
        rest.len() > 0,
        !is_white(rest[0]),
        !is_white(rest.last()),
    ensures
        command_of("/privmsg "@ + rest) == (CommandView::Open { kind: OpenKind::Message, rest }),
{
    lemma_spelled();
    let line = "/privmsg "@ + rest;
    lemma_clean("/privmsg "@, rest);
    assert(line[1] == "/privmsg "@[1]);
    assert(line[2] == "/privmsg "@[2]);
    assert(line[3] == "/privmsg "@[3]);
    lemma_not_prefix(line, "/quit"@, 1);
    lemma_not_prefix(line, "/quit "@, 1);
    lemma_not_prefix(line, "/win "@, 1);
    lemma_not_prefix(line, "/screen "@, 1);
    lemma_not_prefix(line, "/win"@, 1);
    lemma_not_prefix(line, "/screen"@, 1);
    lemma_not_prefix(line, "/close"@, 1);
    lemma_not_prefix(line, "/list"@, 1);
    lemma_not_prefix(line, "/chats"@, 1);
    lemma_not_prefix(line, "/names"@, 1);
    lemma_not_prefix(line, "/topic"@, 1);
    lemma_not_prefix(line, "/whois "@, 1);
    lemma_not_prefix(line, "/search "@, 1);
    lemma_not_prefix(line, "/join "@, 1);
    lemma_not_prefix(line, "/msg "@, 1);
    lemma_not_prefix(line, "/query "@, 1);
    lemma_not_prefix(line, "/trout "@, 1);
}

proof fn lemma_trout(rest: Seq<char>)
    requires
        rest.len() > 0,
        !is_white(rest[0]),
        !is_white(rest.last()),
    ensures
        command_of("/trout "@ + rest) == (CommandView::Open { kind: OpenKind::Trout, rest }),
{
    lemma_spelled();
    let line = "/trout "@ + rest;
    lemma_clean("/trout "@, rest);
    assert(line[1] == "/trout "@[1]);
    assert(line[2] == "/trout "@[2]);
    assert(line[3] == "/trout "@[3]);
    lemma_not_prefix(line, "/quit"@, 1);
    lemma_not_prefix(line, "/quit "@, 1);
    lemma_not_prefix(line, "/win "@, 1);
    lemma_not_prefix(line, "/screen "@, 1);
    lemma_not_prefix(line, "/win"@, 1);
    lemma_not_prefix(line, "/screen"@, 1);
    lemma_not_prefix(line, "/close"@, 1);
    lemma_not_prefix(line, "/list"@, 1);
    lemma_not_prefix(line, "/chats"@, 1);
    lemma_not_prefix(line, "/names"@, 1);
    lemma_not_prefix(line, "/topic"@, 2);
    lemma_not_prefix(line, "/whois "@, 1);
    lemma_not_prefix(line, "/search "@, 1);
    lemma_not_prefix(line, "/join "@, 1);
    lemma_not_prefix(line, "/msg "@, 1);
    lemma_not_prefix(line, "/query "@, 1);
}

proof fn lemma_whois(rest: Seq<char>)
    requires
        rest.len() > 0,
        !is_white(rest[0]),
        !is_white(rest.last()),
    ensures
        command_of("/whois "@ + rest) == (CommandView::Whois { target: rest }),
{
    lemma_spelled();
    let line = "/whois "@ + rest;
    lemma_clean("/whois "@, rest);
    assert(line[1] == "/whois "@[1]);
    assert(line[2] == "/whois "@[2]);
    assert(line[3] == "/whois "@[3]);
    lemma_not_prefix(line, "/quit"@, 1);
    lemma_not_prefix(line, "/quit "@, 1);
    lemma_not_prefix(line, "/win "@, 2);
    lemma_not_prefix(line, "/screen "@, 1);
    lemma_not_prefix(line, "/win"@, 2);
    lemma_not_prefix(line, "/screen"@, 1);
    lemma_not_prefix(line, "/close"@, 1);
    lemma_not_prefix(line, "/list"@, 1);
    lemma_not_prefix(line, "/chats"@, 1);
    lemma_not_prefix(line, "/names"@, 1);
    lemma_not_prefix(line, "/topic"@, 1);
}

proof fn lemma_search(rest: Seq<char>)
    requires
        rest.len() > 0,
        !is_white(rest[0]),
        !is_white(rest.last()),
    ensures
        command_of("/search "@ + rest) == (CommandView::Search { query: rest }),
{
    lemma_spelled();
    let line = "/search "@ + rest;
    lemma_clean("/search "@, rest);
    assert(line[1] == "/search "@[1]);
    assert(line[2] == "/search "@[2]);
    assert(line[3] == "/search "@[3]);
    lemma_not_prefix(line, "/quit"@, 1);
    lemma_not_prefix(line, "/quit "@, 1);
    lemma_not_prefix(line, "/win "@, 1);
    lemma_not_prefix(line, "/screen "@, 2);
    lemma_not_prefix(line, "/win"@, 1);
    lemma_not_prefix(line, "/screen"@, 2);
    lemma_not_prefix(line, "/close"@, 1);
    lemma_not_prefix(line, "/list"@, 1);
    lemma_not_prefix(line, "/chats"@, 1);
    lemma_not_prefix(line, "/names"@, 1);
    lemma_not_prefix(line, "/topic"@, 1);
    lemma_not_prefix(line, "/whois "@, 1);
}

proof fn lemma_me(rest: Seq<char>)
    requires
        rest.len() > 0,
        !is_white(rest[0]),
        !is_white(rest.last()),
    ensures
        command_of("/me "@ + rest) == (CommandView::Me { action: rest }),
{
    lemma_spelled();
    let line = "/me "@ + rest;
    lemma_clean("/me "@, rest);
    assert(line[1] == "/me "@[1]);
    assert(line[2] == "/me "@[2]);
    assert(line[3] == "/me "@[3]);
    lemma_not_prefix(line, "/quit"@, 1);
    lemma_not_prefix(line, "/quit "@, 1);
    lemma_not_prefix(line, "/win "@, 1);
    lemma_not_prefix(line, "/screen "@, 1);
    lemma_not_prefix(line, "/win"@, 1);
    lemma_not_prefix(line, "/screen"@, 1);
    lemma_not_prefix(line, "/close"@, 1);
    lemma_not_prefix(line, "/list"@, 1);
    lemma_not_prefix(line, "/chats"@, 1);
    lemma_not_prefix(line, "/names"@, 1);
    lemma_not_prefix(line, "/topic"@, 1);
    lemma_not_prefix(line, "/whois "@, 1);
    lemma_not_prefix(line, "/search "@, 1);
    lemma_not_prefix(line, "/join "@, 1);
    lemma_not_prefix(line, "/msg "@, 2);
    lemma_not_prefix(line, "/query "@, 1);
    lemma_not_prefix(line, "/trout "@, 1);
    lemma_not_prefix(line, "/privmsg "@, 1);
}

proof fn lemma_list(rest: Seq<char>)
    requires
        rest.len() > 0,
        !is_white(rest[0]),
        !is_white(rest.last()),
    ensures
        command_of("/list "@ + rest) == (CommandView::List { query: rest }),
{
    lemma_spelled();
    let line = "/list "@ + rest;
    lemma_clean("/list "@, rest);
    assert(line[1] == "/list "@[1]);
    assert(line[2] == "/list "@[2]);
    assert(line[3] == "/list "@[3]);
    lemma_not_prefix(line, "/quit"@, 1);
    lemma_not_prefix(line, "/quit "@, 1);
    lemma_not_prefix(line, "/win "@, 1);
    lemma_not_prefix(line, "/screen "@, 1);
    lemma_not_prefix(line, "/win"@, 1);
    lemma_not_prefix(line, "/screen"@, 1);
    lemma_not_prefix(line, "/close"@, 1);
    assert(line.take(5) =~= "/list"@);
    assert(line.skip(5)[0] == ' ');
    assert(line.skip(5).drop_first() =~= rest);
}

proof fn lemma_chats(rest: Seq<char>)
    requires
        rest.len() > 0,
        !is_white(rest[0]),
        !is_white(rest.last()),
    ensures
        command_of("/chats "@ + rest) == (CommandView::List { query: rest }),
{
    lemma_spelled();
    let line = "/chats "@ + rest;
    lemma_clean("/chats "@, rest);
    assert(line[1] == "/chats "@[1]);
    assert(line[2] == "/chats "@[2]);
    assert(line[3] == "/chats "@[3]);
    lemma_not_prefix(line, "/quit"@, 1);
    lemma_not_prefix(line, "/quit "@, 1);
    lemma_not_prefix(line, "/win "@, 1);
    lemma_not_prefix(line, "/screen "@, 1);
    lemma_not_prefix(line, "/win"@, 1);
    lemma_not_prefix(line, "/screen"@, 1);
    lemma_not_prefix(line, "/close"@, 2);
    lemma_not_prefix(line, "/list"@, 1);
    assert(line.take(6) =~= "/chats"@);
    assert(line.skip(6)[0] == ' ');
    assert(line.skip(6).drop_first() =~= rest);
}

proof fn lemma_names(rest: Seq<char>)
    requires
        rest.len() > 0,
        !is_white(rest[0]),
        !is_white(rest.last()),
    ensures
        command_of("/names "@ + rest) == (CommandView::Names { target: rest }),
{
    lemma_spelled();
    let line = "/names "@ + rest;
    lemma_clean("/names "@, rest);
    assert(line[1] == "/names "@[1]);
    assert(line[2] == "/names "@[2]);
    assert(line[3] == "/names "@[3]);
    lemma_not_prefix(line, "/quit"@, 1);
    lemma_not_prefix(line, "/quit "@, 1);
    lemma_not_prefix(line, "/win "@, 1);
    lemma_not_prefix(line, "/screen "@, 1);
    lemma_not_prefix(line, "/win"@, 1);
    lemma_not_prefix(line, "/screen"@, 1);
    lemma_not_prefix(line, "/close"@, 1);
    lemma_not_prefix(line, "/list"@, 1);
    lemma_not_prefix(line, "/chats"@, 1);
    assert(line.take(6) =~= "/names"@);
    assert(line.skip(6)[0] == ' ');
    assert(line.skip(6).drop_first() =~= rest);
}

/// The command to join takes all that follows it as the name of a chat, however
/// many words that has.
pub proof fn join_takes_its_argument(rest: Seq<char>)
    requires
        rest.len() > 0,
        !is_white(rest[0]),
        !is_white(rest.last()),
    ensures
        command_of("/join "@ + rest) == (CommandView::Open { kind: OpenKind::Join, rest }),
{
    lemma_join(rest);
}

/// The command to message somebody goes by three names, which all take what follows
/// them.
pub proof fn messaging_goes_by_three_names(rest: Seq<char>)
    requires
        rest.len() > 0,
        !is_white(rest[0]),
        !is_white(rest.last()),
    ensures
        command_of("/msg "@ + rest) == (CommandView::Open { kind: OpenKind::Message, rest }),
        command_of("/query "@ + rest) == (CommandView::Open { kind: OpenKind::Message, rest }),
        command_of("/privmsg "@ + rest) == (CommandView::Open { kind: OpenKind::Message, rest }),
{
    lemma_msg(rest);
    lemma_query(rest);
    lemma_privmsg(rest);
}

/// The command to slap somebody takes all that follows it.
pub proof fn trout_takes_its_argument(rest: Seq<char>)
    requires
        rest.len() > 0,
        !is_white(rest[0]),
        !is_white(rest.last()),
    ensures
        command_of("/trout "@ + rest) == (CommandView::Open { kind: OpenKind::Trout, rest }),
{
    lemma_trout(rest);
}

proof fn lemma_quit(rest: Seq<char>)
    requires
        rest.len() > 0,
        !is_white(rest[0]),
        !is_white(rest.last()),
    ensures
        command_of("/quit "@ + rest) == CommandView::Quit,
{
    lemma_spelled();
    lemma_clean("/quit "@, rest);
}

/// The other commands with an argument take all that follows them.
pub proof fn commands_take_their_arguments(rest: Seq<char>)
    requires
        rest.len() > 0,
        !is_white(rest[0]),
        !is_white(rest.last()),
    ensures
        command_of("/whois "@ + rest) == (CommandView::Whois { target: rest }),
        command_of("/search "@ + rest) == (CommandView::Search { query: rest }),
        command_of("/me "@ + rest) == (CommandView::Me { action: rest }),
        command_of("/list "@ + rest) == (CommandView::List { query: rest }),
        command_of("/chats "@ + rest) == (CommandView::List { query: rest }),
        command_of("/names "@ + rest) == (CommandView::Names { target: rest }),
        command_of("/quit "@ + rest) == CommandView::Quit,
{
    lemma_whois(rest);
    lemma_search(rest);
    lemma_me(rest);
    lemma_list(rest);
    lemma_chats(rest);
    lemma_names(rest);
    lemma_quit(rest);
}

proof fn lemma_bare_list()
    ensures
        command_of("/list"@) == (CommandView::List { query: Seq::empty() }),
{
    lemma_spelled();
    let line = "/list"@;
    lemma_trim_clean(line);
    lemma_not_prefix(line, "/quit"@, 1);
    lemma_not_prefix(line, "/quit "@, 1);
    lemma_not_prefix(line, "/win "@, 1);
    lemma_not_prefix(line, "/screen "@, 1);
    lemma_not_prefix(line, "/win"@, 1);
    lemma_not_prefix(line, "/screen"@, 1);
    lemma_not_prefix(line, "/close"@, 1);
    assert(line.take(5) =~= line);
    assert(line.skip(5) =~= Seq::empty());
    lemma_trim_clean(Seq::<char>::empty());
}

proof fn lemma_bare_chats()
    ensures
        command_of("/chats"@) == (CommandView::List { query: Seq::empty() }),
{
    lemma_spelled();
    let line = "/chats"@;
    lemma_trim_clean(line);
    lemma_not_prefix(line, "/quit"@, 1);
    lemma_not_prefix(line, "/quit "@, 1);
    lemma_not_prefix(line, "/win "@, 1);
    lemma_not_prefix(line, "/screen "@, 1);
    lemma_not_prefix(line, "/win"@, 1);
    lemma_not_prefix(line, "/screen"@, 1);
    lemma_not_prefix(line, "/close"@, 2);
    lemma_not_prefix(line, "/list"@, 1);
    assert(line.take(6) =~= line);
    assert(line.skip(6) =~= Seq::empty());
    lemma_trim_clean(Seq::<char>::empty());
}

proof fn lemma_bare_names()
    ensures
        command_of("/names"@) == (CommandView::Names { target: Seq::empty() }),
{
    lemma_spelled();
    let line = "/names"@;
    lemma_trim_clean(line);
    lemma_not_prefix(line, "/quit"@, 1);
    lemma_not_prefix(line, "/quit "@, 1);
    lemma_not_prefix(line, "/win "@, 1);
    lemma_not_prefix(line, "/screen "@, 1);
    lemma_not_prefix(line, "/win"@, 1);
    lemma_not_prefix(line, "/screen"@, 1);
    lemma_not_prefix(line, "/close"@, 1);
    lemma_not_prefix(line, "/list"@, 1);
    lemma_not_prefix(line, "/chats"@, 1);
    assert(line.take(6) =~= line);
    assert(line.skip(6) =~= Seq::empty());
    lemma_trim_clean(Seq::<char>::empty());
}

proof fn lemma_bare_topic()
    ensures
        command_of("/topic"@) == (CommandView::Topic),
{
    lemma_spelled();
    let line = "/topic"@;
    lemma_trim_clean(line);
    lemma_not_prefix(line, "/quit"@, 1);
    lemma_not_prefix(line, "/quit "@, 1);
    lemma_not_prefix(line, "/win "@, 1);
    lemma_not_prefix(line, "/screen "@, 1);
    lemma_not_prefix(line, "/win"@, 1);
    lemma_not_prefix(line, "/screen"@, 1);
    lemma_not_prefix(line, "/close"@, 1);
    lemma_not_prefix(line, "/list"@, 1);
    lemma_not_prefix(line, "/chats"@, 1);
    lemma_not_prefix(line, "/names"@, 1);
    assert(line.take(6) =~= line);
}

proof fn lemma_bare_win()
    ensures
        command_of("/win"@) == (CommandView::Windows),
{
    lemma_spelled();
    let line = "/win"@;
    lemma_trim_clean(line);
    lemma_not_prefix(line, "/quit"@, 1);
    lemma_not_prefix(line, "/quit "@, 1);
    lemma_not_prefix(line, "/screen "@, 1);
    lemma_not_prefix(line, "/win "@, 4);
    lemma_not_prefix(line, "/screen "@, 1);
}

proof fn lemma_bare_screen()
    ensures
        command_of("/screen"@) == (CommandView::Windows),
{
    lemma_spelled();
    let line = "/screen"@;
    lemma_trim_clean(line);
    lemma_not_prefix(line, "/quit"@, 1);
    lemma_not_prefix(line, "/quit "@, 1);
    lemma_not_prefix(line, "/win "@, 1);
    lemma_not_prefix(line, "/win"@, 1);
    lemma_not_prefix(line, "/win "@, 1);
    lemma_not_prefix(line, "/screen "@, 7);
}

proof fn lemma_bare_close()
    ensures
        command_of("/close"@) == (CommandView::Close),
{
    lemma_spelled();
    let line = "/close"@;
    lemma_trim_clean(line);
    lemma_not_prefix(line, "/quit"@, 1);
    lemma_not_prefix(line, "/quit "@, 1);
    lemma_not_prefix(line, "/win "@, 1);
    lemma_not_prefix(line, "/screen "@, 1);
    lemma_not_prefix(line, "/win"@, 1);
    lemma_not_prefix(line, "/screen"@, 1);
    assert(line.take(6) =~= line);
    assert(line.skip(6) =~= Seq::empty());
    lemma_trim_clean(Seq::<char>::empty());
}

proof fn lemma_bare_reload()
    ensures
        command_of("/reload"@) == (CommandView::Reload),
{
    lemma_spelled();
    let line = "/reload"@;
    lemma_trim_clean(line);
    lemma_not_prefix(line, "/quit"@, 1);
    lemma_not_prefix(line, "/quit "@, 1);
    lemma_not_prefix(line, "/win "@, 1);
    lemma_not_prefix(line, "/screen "@, 1);
    lemma_not_prefix(line, "/win"@, 1);
    lemma_not_prefix(line, "/screen"@, 1);
    lemma_not_prefix(line, "/close"@, 1);
    lemma_not_prefix(line, "/list"@, 1);
    lemma_not_prefix(line, "/chats"@, 1);
    lemma_not_prefix(line, "/names"@, 1);
    lemma_not_prefix(line, "/topic"@, 1);
    lemma_not_prefix(line, "/whois "@, 1);
    lemma_not_prefix(line, "/search "@, 1);
    lemma_not_prefix(line, "/join "@, 1);
    lemma_not_prefix(line, "/msg "@, 1);
    lemma_not_prefix(line, "/query "@, 1);
    lemma_not_prefix(line, "/trout "@, 1);
    lemma_not_prefix(line, "/privmsg "@, 1);
    lemma_not_prefix(line, "/me "@, 1);
}

proof fn lemma_bare_help()
    ensures
        command_of("/help"@) == (CommandView::Help),
{
    lemma_spelled();
    let line = "/help"@;
    lemma_trim_clean(line);
    lemma_not_prefix(line, "/quit"@, 1);
    lemma_not_prefix(line, "/quit "@, 1);
    lemma_not_prefix(line, "/win "@, 1);
    lemma_not_prefix(line, "/screen "@, 1);
    lemma_not_prefix(line, "/win"@, 1);
    lemma_not_prefix(line, "/screen"@, 1);
    lemma_not_prefix(line, "/close"@, 1);
    lemma_not_prefix(line, "/list"@, 1);
    lemma_not_prefix(line, "/chats"@, 1);
    lemma_not_prefix(line, "/names"@, 1);
    lemma_not_prefix(line, "/topic"@, 1);
    lemma_not_prefix(line, "/whois "@, 1);
    lemma_not_prefix(line, "/search "@, 1);
    lemma_not_prefix(line, "/join "@, 1);
    lemma_not_prefix(line, "/msg "@, 1);
    lemma_not_prefix(line, "/query "@, 1);
    lemma_not_prefix(line, "/trout "@, 1);
    lemma_not_prefix(line, "/privmsg "@, 1);
    lemma_not_prefix(line, "/me "@, 1);
    lemma_not_prefix(line, "/reload"@, 1);
}

proof fn lemma_bare_quit()
    ensures
        command_of("/quit"@) == (CommandView::Quit),
{
    lemma_spelled();
    let line = "/quit"@;
    lemma_trim_clean(line);
}

/// The commands that stand alone.
pub proof fn bare_commands_stand_alone()
    ensures
        command_of("/list"@) == (CommandView::List { query: Seq::empty() }),
        command_of("/chats"@) == (CommandView::List { query: Seq::empty() }),
        command_of("/names"@) == (CommandView::Names { target: Seq::empty() }),
        command_of("/topic"@) == CommandView::Topic,
        command_of("/win"@) == CommandView::Windows,
        command_of("/screen"@) == CommandView::Windows,
        command_of("/close"@) == CommandView::Close,
        command_of("/reload"@) == CommandView::Reload,
        command_of("/help"@) == CommandView::Help,
        command_of("/quit"@) == CommandView::Quit,
{
    lemma_bare_list();
    lemma_bare_chats();
    lemma_bare_names();
    lemma_bare_topic();
    lemma_bare_win();
    lemma_bare_screen();
    lemma_bare_close();
    lemma_bare_reload();
    lemma_bare_help();
    lemma_bare_quit();
}

proof fn lemma_trim_ends(a: Seq<char>, s: Seq<char>, b: Seq<char>)
    requires
        s.len() > 0,
        !is_white(s[0]),
        !is_white(s.last()),
        forall|i: int| 0 <= i < a.len() ==> is_white(#[trigger] a[i]),
        forall|i: int| 0 <= i < b.len() ==> is_white(#[trigger] b[i]),
    ensures
        trim(a + s + b) == s,
    decreases a.len(),
{
    let all = a + s + b;
    if a.len() > 0 {
        let t = a.drop_first();
        assert forall|i: int| 0 <= i < t.len() implies is_white(#[trigger] t[i]) by {
            assert(t[i] == a[i + 1]);
        }
        lemma_trim_ends(t, s, b);
        assert(all[0] == a[0]);
        assert(all.drop_first() =~= t + s + b);
        assert(trim_start(all) == trim_start(t + s + b));
    } else {
        assert(all =~= s + b);
        assert(all[0] == s[0]);
        lemma_trim_back(s, b);
    }
}

proof fn lemma_trim_back(s: Seq<char>, b: Seq<char>)
    requires
        s.len() > 0,
        !is_white(s.last()),
        forall|i: int| 0 <= i < b.len() ==> is_white(#[trigger] b[i]),
    ensures
        trim_end(s + b) == s,
    decreases b.len(),
{
    let all = s + b;
    if b.len() > 0 {
        let t = b.drop_last();
        assert forall|i: int| 0 <= i < t.len() implies is_white(#[trigger] t[i]) by {
            assert(t[i] == b[i]);
        }
        lemma_trim_back(s, t);
        assert(all.last() == b[b.len() - 1]);
        assert(all.drop_last() =~= s + t);
    } else {
        assert(all =~= s);
    }
}

proof fn lemma_trim_white(s: Seq<char>)
    requires
        forall|i: int| 0 <= i < s.len() ==> is_white(#[trigger] s[i]),
    ensures
        trim(s).len() == 0,
    decreases s.len(),
{
    if s.len() > 0 {
        let t = s.drop_first();
        assert forall|i: int| 0 <= i < t.len() implies is_white(#[trigger] t[i]) by {
            assert(t[i] == s[i + 1]);
        }
        lemma_trim_white(t);
        assert(is_white(s[0]));
        assert(trim_start(s) == trim_start(t));
    }
}

/// White space around a line makes no difference, and a line of nothing else is no
/// command.
pub proof fn white_space_around_a_line_is_dropped(
    before: Seq<char>,
    line: Seq<char>,
    behind: Seq<char>,
)
    requires
        forall|i: int| 0 <= i < before.len() ==> is_white(#[trigger] before[i]),
        forall|i: int| 0 <= i < behind.len() ==> is_white(#[trigger] behind[i]),
        line.len() > 0 ==> !is_white(line[0]) && !is_white(line.last()),
    ensures
        line.len() > 0 ==> command_of(before + line + behind) == command_of(line),
        line.len() == 0 ==> command_of(before + line + behind) == CommandView::Nothing,
{
    if line.len() > 0 {
        lemma_trim_ends(before, line, behind);
        lemma_trim_clean(line);
    } else {
        let all = before + line + behind;
        assert forall|i: int| 0 <= i < all.len() implies is_white(#[trigger] all[i]) by {
            if i < before.len() {
                assert(all[i] == before[i]);
            } else {
                assert(all[i] == behind[i - before.len()]);
            }
        }
        lemma_trim_white(all);
    }
}

/// White space is what Unicode says it is: the space, the tab, the ends of lines, and
/// the wider and narrower spaces; no sign, digit or letter of the plain alphabet is.
pub proof fn white_space_is_that_of_unicode(c: char)
    ensures
        is_white(c) <==> {
            let u = c as int;
            u == 0x09 || u == 0x0a || u == 0x0b || u == 0x0c || u == 0x0d || u == 0x20 || u == 0x85
                || u == 0xa0 || u == 0x1680 || u == 0x2000 || u == 0x2001 || u == 0x2002 || u
                == 0x2003 || u == 0x2004 || u == 0x2005 || u == 0x2006 || u == 0x2007 || u == 0x2008
                || u == 0x2009 || u == 0x200a || u == 0x2028 || u == 0x2029 || u == 0x202f || u
                == 0x205f || u == 0x3000
        },
        '!' <= c <= '~' ==> !is_white(c),
{
}

proof fn lemma_numeral(n: usize)
    ensures
        ({
            let s = decimal_of(n as nat);
            &&& s.len() > 0
            &&& !is_white(s[0])
            &&& !is_white(s.last())
            &&& usize_of(s) == Some(n)
        }),
{
    lemma_decimal_value(n as nat);
    lemma_decimal_reads_back(n);
    assert(is_digit(decimal_of(n as nat)[0]));
    assert(is_digit(decimal_of(n as nat).last()));
}

proof fn lemma_screen(n: usize)
    ensures
        command_of("/screen "@ + decimal_of(n as nat)) == (CommandView::Switch { number: n }),
{
    lemma_spelled();
    lemma_numeral(n);
    let rest = decimal_of(n as nat);
    let line = "/screen "@ + rest;
    lemma_clean("/screen "@, rest);
    assert(line[1] == 's');
    lemma_not_prefix(line, "/quit"@, 1);
    lemma_not_prefix(line, "/quit "@, 1);
    lemma_not_prefix(line, "/win "@, 1);
}

proof fn lemma_close_number(n: usize)
    ensures
        command_of("/close "@ + decimal_of(n as nat)) == (CommandView::CloseNumber { number: n }),
{
    lemma_spelled();
    reveal_strlit("/close ");
    lemma_numeral(n);
    let rest = decimal_of(n as nat);
    let line = "/close "@ + rest;
    lemma_clean("/close "@, rest);
    assert(line[1] == 'c');
    lemma_not_prefix(line, "/quit"@, 1);
    lemma_not_prefix(line, "/quit "@, 1);
    lemma_not_prefix(line, "/win "@, 1);
    lemma_not_prefix(line, "/screen "@, 1);
    lemma_not_prefix(line, "/win"@, 1);
    lemma_not_prefix(line, "/screen"@, 1);
    assert(line.take(6) =~= "/close"@);
    assert(line.skip(6)[0] == ' ');
    assert(line.skip(6).drop_first() =~= rest);
    assert(argument(line, "/close"@) == trim(rest));
}

/// The commands to switch to a window and to close one take its number.
pub proof fn windows_go_by_their_numbers(n: usize)
    ensures
        command_of("/win "@ + decimal_of(n as nat)) == (CommandView::Switch { number: n }),
        command_of("/screen "@ + decimal_of(n as nat)) == (CommandView::Switch { number: n }),
        command_of("/close "@ + decimal_of(n as nat)) == (CommandView::CloseNumber { number: n }),
{
    win_takes_a_number(n);
    lemma_screen(n);
    lemma_close_number(n);
}

proof fn lemma_word_head(word: Seq<char>, rest: Seq<char>)
    requires
        forall|i: int| 0 <= i < word.len() ==> !is_white(#[trigger] word[i]),
        rest.len() > 0 ==> is_white(rest[0]),
    ensures
        word_head(word + rest) == word,
    decreases word.len(),
{
    let s = word + rest;
    if word.len() > 0 {
        let t = word.drop_first();
        assert forall|i: int| 0 <= i < t.len() implies !is_white(#[trigger] t[i]) by {
            assert(t[i] == word[i + 1]);
        }
        lemma_word_head(t, rest);
        assert(s[0] == word[0]);
        assert(s.drop_first() =~= t + rest);
        assert(seq![word[0]] + t =~= word);
    } else {
        assert(s =~= rest);
    }
}

/// A line that starts with a slash but with no command is reported by its first
/// word.
pub proof fn unknown_commands_go_by_their_first_word(word: Seq<char>, rest: Seq<char>)
    requires
        word.len() > 0,
        word[0] == '/',
        forall|i: int| 0 <= i < word.len() ==> !is_white(#[trigger] word[i]),
        rest.len() > 0 ==> is_white(rest[0]) && !is_white(rest.last()),
        word != "/win"@,
        word != "/screen"@,
        word != "/quit"@,
        word != "/join"@,
        word != "/msg"@,
        word != "/query"@,
        word != "/privmsg"@,
        word != "/trout"@,
        word != "/whois"@,
        word != "/search"@,
        word != "/me"@,
        word != "/reload"@,
        word != "/help"@,
        !"/close"@.is_prefix_of(word),
        !"/list"@.is_prefix_of(word),
        !"/chats"@.is_prefix_of(word),
        !"/names"@.is_prefix_of(word),
        !"/topic"@.is_prefix_of(word),
    ensures
        command_of(word + rest) == (CommandView::Unknown { word }),
{
    lemma_spelled();
    reveal_strlit("/join");
    reveal_strlit("/msg");
    reveal_strlit("/query");
    reveal_strlit("/privmsg");
    reveal_strlit("/trout");
    reveal_strlit("/whois");
    reveal_strlit("/search");
    reveal_strlit("/me");
    let line = word + rest;
    assert(line[0] == word[0]);
    assert(line.last() == if rest.len() > 0 { rest.last() } else { word.last() });
    assert(!is_white(word[word.len() - 1]));
    lemma_trim_clean(line);
    lemma_word_head(word, rest);
    assert(line.take(1) =~= "/"@);
    lemma_spaced_prefix(word, rest, "/quit"@, "/quit "@);
    lemma_spaced_prefix(word, rest, "/win"@, "/win "@);
    lemma_spaced_prefix(word, rest, "/screen"@, "/screen "@);
    lemma_spaced_prefix(word, rest, "/join"@, "/join "@);
    lemma_spaced_prefix(word, rest, "/msg"@, "/msg "@);
    lemma_spaced_prefix(word, rest, "/query"@, "/query "@);
    lemma_spaced_prefix(word, rest, "/privmsg"@, "/privmsg "@);
    lemma_spaced_prefix(word, rest, "/trout"@, "/trout "@);
    lemma_spaced_prefix(word, rest, "/whois"@, "/whois "@);
    lemma_spaced_prefix(word, rest, "/search"@, "/search "@);
    lemma_spaced_prefix(word, rest, "/me"@, "/me "@);
    lemma_whole(word, rest, "/quit"@);
    lemma_whole(word, rest, "/win"@);
    lemma_whole(word, rest, "/screen"@);
    lemma_whole(word, rest, "/reload"@);
    lemma_whole(word, rest, "/help"@);
    lemma_bare_prefix(word, rest, "/close"@);
    lemma_bare_prefix(word, rest, "/list"@);
    lemma_bare_prefix(word, rest, "/chats"@);
    lemma_bare_prefix(word, rest, "/names"@);
    lemma_bare_prefix(word, rest, "/topic"@);
}

proof fn lemma_spaced_prefix(word: Seq<char>, rest: Seq<char>, name: Seq<char>, p: Seq<char>)
    requires
        forall|i: int| 0 <= i < word.len() ==> !is_white(#[trigger] word[i]),
        forall|i: int| 0 <= i < name.len() ==> !is_white(#[trigger] name[i]),
        rest.len() > 0 ==> is_white(rest[0]),
        p =~= name.push(' '),
        word != name,
    ensures
        !has_prefix(word + rest, p),
{
    let line = word + rest;
    if has_prefix(line, p) {
        assert forall|i: int| 0 <= i < p.len() implies line[i] == #[trigger] p[i] by {
            assert(line.take(p.len() as int)[i] == line[i]);
        }
        let n = name.len() as int;
        assert(p[n] == ' ');
        if word.len() > n {
            assert(word[n] == line[n]);
        } else if word.len() < n {
            assert(line[word.len() as int] == rest[0]);
            assert(p[word.len() as int] == name[word.len() as int]);
        } else {
            assert forall|i: int| 0 <= i < n implies word[i] == name[i] by {
                assert(line[i] == p[i]);
            }
            assert(word =~= name);
        }
    }
}

proof fn lemma_whole(word: Seq<char>, rest: Seq<char>, name: Seq<char>)
    requires
        forall|i: int| 0 <= i < name.len() ==> !is_white(#[trigger] name[i]),
        rest.len() > 0 ==> is_white(rest[0]),
        word != name,
    ensures
        word + rest != name,
{
    if word + rest == name {
        if rest.len() > 0 {
            assert(name[word.len() as int] == rest[0]);
        } else {
            assert(word + rest =~= word);
        }
    }
}

proof fn lemma_bare_prefix(word: Seq<char>, rest: Seq<char>, p: Seq<char>)
    requires
        forall|i: int| 0 <= i < p.len() ==> !is_white(#[trigger] p[i]),
        rest.len() > 0 ==> is_white(rest[0]),
        !p.is_prefix_of(word),
    ensures
        !has_prefix(word + rest, p),
{
    let line = word + rest;
    if has_prefix(line, p) {
        assert forall|i: int| 0 <= i < p.len() implies line[i] == #[trigger] p[i] by {
            assert(line.take(p.len() as int)[i] == line[i]);
        }
        if p.len() > word.len() {
            assert(line[word.len() as int] == rest[0]);
            assert(p[word.len() as int] == rest[0]);
        } else {
            assert(p =~= word.subrange(0, p.len() as int));
        }
    }
}

} // verus!
