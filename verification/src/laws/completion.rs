//! What the Tab key promises.
use vstd::arithmetic::div_mod::{lemma_mod_self_0, lemma_small_mod};
use vstd::prelude::*;
use crate::app::{AppView, TabView};
use crate::complete::{chat_names, completable, mention_of, nicks_like, offered};
use crate::laws::{
    completions_are_the_names_found, completions_start_with_the_word, mentions_start_with_the_word,
};
use crate::order::in_order;
use crate::text::{
    has_prefix, is_white, last_at, lemma_last_at, lemma_last_at_is, lemma_not_prefix, lower_word,
    lowercase,
};

verus! {

/// Whether a name starts with a word, without regard to case. Every name starts
/// with the empty word.
pub open spec fn begins_with(name: Seq<char>, word: Seq<char>) -> bool {
    word.len() == 0 || lowercase(word).is_prefix_of(name)
}

/// Whether a line ends in a word that starts with an at sign: `word` behind the at
/// sign, `before` before it.
pub open spec fn ends_in_mention(line: Seq<char>, before: Seq<char>, word: Seq<char>) -> bool {
    &&& line == before.push('@') + word
    &&& before.len() > 0 ==> is_white(before.last())
    &&& forall|i: int| 0 <= i < word.len() ==> #[trigger] word[i] != '@' && !is_white(word[i])
}

/// Whether the last word of a line does not start with an at sign: there is white
/// space behind every word that does.
pub open spec fn ends_in_no_mention(line: Seq<char>) -> bool {
    forall|i: int|
        0 <= i < line.len() && #[trigger] line[i] == '@' && (i > 0 ==> is_white(line[i - 1]))
            ==> exists|j: int| i < j < line.len() && is_white(#[trigger] line[j])
}

/// Whether a line is a command whose argument is the name of a chat so far.
pub open spec fn names_a_chat(line: Seq<char>, command: Seq<char>, word: Seq<char>) -> bool {
    &&& command == "/join "@ || command == "/msg "@ || command == "/query "@ || command
        == "/privmsg "@ || command == "/whois "@ || command == "/names "@
    &&& line == command + word
    &&& ends_in_no_mention(line)
}

/// What a Tab that completes a word makes of the state: where some name is found,
/// those found are the candidates, in alphabetical order and none of them twice in
/// a row, and the first one stands on the line behind what was before the word;
/// nothing else changes, and nothing at all where none is found.
pub open spec fn offers(
    v: AppView,
    after: AppView,
    found: spec_fn(Seq<char>) -> bool,
    before: Seq<char>,
    sep: Seq<char>,
    word: Seq<char>,
) -> bool {
    if exists|x: Seq<char>| #[trigger] found(x) {
        &&& after.tab matches Some(t) && {
            &&& forall|x: Seq<char>| #[trigger] t.candidates.contains(x) <==> found(x)
            &&& in_order(t.candidates)
            &&& forall|i: int|
                0 <= i < t.candidates.len() - 1 ==> #[trigger] t.candidates[i] != t.candidates[i
                    + 1]
            &&& t.candidates.len() > 0
            &&& t.idx == 0
            &&& t.cmd_prefix == before
            &&& t.word_start == word
            &&& after.input == before + sep + t.candidates[0]
            &&& after == (AppView { tab: after.tab, input: after.input, ..v })
        }
    } else {
        after == v
    }
}

/// The nicks of window `w` that a word begins.
pub open spec fn nicks_found(v: AppView, w: int, word: Seq<char>) -> spec_fn(Seq<char>) -> bool {
    |x: Seq<char>| v.windows[w].nicks.contains(x) && begins_with(lowercase(x), word)
}

/// The names to show of the chats of the directory that a word begins.
pub open spec fn chats_found(v: AppView, word: Seq<char>) -> spec_fn(Seq<char>) -> bool {
    |x: Seq<char>|
        exists|i: int|
            0 <= i < v.ordered_chats.len() && begins_with((#[trigger] v.ordered_chats[i]).key, word)
                && x == (match v.ordered_chats[i].peer.name {
                Some(name) => name,
                None => "Unknown"@,
            })
}

proof fn lemma_begins(name: Seq<char>, word: Seq<char>)
    ensures
        has_prefix(name, lower_word(word)) <==> begins_with(name, word),
{
    if word.len() == 0 {
        assert(name.take(0) =~= Seq::empty());
    } else {
        let lc = lowercase(word);
        if lc.len() <= name.len() {
            assert(name.take(lc.len() as int) =~= name.subrange(0, lc.len() as int));
        }
    }
}

proof fn lemma_offers(
    v: AppView,
    list: Seq<Seq<char>>,
    found: spec_fn(Seq<char>) -> bool,
    before: Seq<char>,
    sep: Seq<char>,
    word: Seq<char>,
)
    requires
        v.tab is None,
        forall|x: Seq<char>| list.contains(x) <==> #[trigger] found(x),
    ensures
        offers(v, v.completed(before, word, sep, list), found, before, sep, word),
{
    completions_are_the_names_found(list);
    let o = offered(list);
    if exists|x: Seq<char>| #[trigger] found(x) {
        let x = choose|x: Seq<char>| #[trigger] found(x);
        assert(o.contains(x));
        assert(o.len() > 0);
        assert forall|x: Seq<char>| #[trigger] o.contains(x) <==> found(x) by {}
    } else if o.len() > 0 {
        assert(o.contains(o[0]));
        assert(found(o[0]));
    }
}

proof fn lemma_nicks_found(v: AppView, w: int, word: Seq<char>)
    ensures
        forall|x: Seq<char>|
            nicks_like(v.windows[w].nicks, lower_word(word)).contains(x) <==> #[trigger]
                nicks_found(v, w, word)(x),
{
    let nicks = v.windows[w].nicks;
    assert forall|x: Seq<char>|
        nicks_like(nicks, lower_word(word)).contains(x) <==> #[trigger] nicks_found(v, w, word)(
            x,
        ) by {
        mentions_start_with_the_word(nicks, word, x);
        completions_are_the_names_found(nicks_like(nicks, lower_word(word)));
        lemma_begins(lowercase(x), word);
    }
}

proof fn lemma_chats_found(v: AppView, word: Seq<char>)
    ensures
        forall|x: Seq<char>|
            chat_names(v.ordered_chats, lower_word(word)).contains(x) <==> #[trigger] chats_found(
                v,
                word,
            )(x),
{
    let chats = v.ordered_chats;
    let names = chat_names(chats, lower_word(word));
    assert forall|x: Seq<char>| names.contains(x) <==> #[trigger] chats_found(v, word)(x) by {
        completions_start_with_the_word(chats, word, x);
        completions_are_the_names_found(names);
        assert forall|i: int| 0 <= i < chats.len() implies (has_prefix(
            (#[trigger] chats[i]).key,
            lower_word(word),
        ) <==> begins_with(chats[i].key, word)) by {
            lemma_begins(chats[i].key, word);
        }
        if names.contains(x) {
            let i = choose|i: int|
                0 <= i < chats.len() && has_prefix((#[trigger] chats[i]).key, lower_word(word))
                    && chats[i].peer.label() == x;
            assert(begins_with(chats[i].key, word));
        }
        if chats_found(v, word)(x) {
            let i = choose|i: int|
                0 <= i < v.ordered_chats.len() && begins_with(
                    (#[trigger] v.ordered_chats[i]).key,
                    word,
                ) && x == (match v.ordered_chats[i].peer.name {
                    Some(name) => name,
                    None => "Unknown"@,
                });
            assert(has_prefix(chats[i].key, lower_word(word)));
            assert(chats[i].peer.label() == x);
        }
    }
}

proof fn lemma_mention(line: Seq<char>, before: Seq<char>, word: Seq<char>)
    requires
        ends_in_mention(line, before, word),
    ensures
        mention_of(line) == Some((before, word)),
{
    assert(line =~= before + seq!['@'] + word);
    lemma_last_at_is(before, '@', word);
}

/// Where the last word of the line starts with an at sign, Tab in a window with
/// nicks offers the nicks of that very window that start with what stands behind
/// the at sign, without regard to case.
pub proof fn mentions_come_from_the_front(
    v: AppView,
    w: usize,
    before: Seq<char>,
    word: Seq<char>,
)
    requires
        v.active == Some(w),
        w < v.windows.len(),
        v.windows[w as int].nicks.len() > 0,
        v.tab is None,
        ends_in_mention(v.input, before, word),
    ensures
        offers(v, v.tabbed(), nicks_found(v, w as int, word), before, "@"@, word),
{
    lemma_mention(v.input, before, word);
    lemma_nicks_found(v, w as int, word);
    lemma_offers(
        v,
        v.mentionable(w as int, lower_word(word)),
        nicks_found(v, w as int, word),
        before,
        "@"@,
        word,
    );
}

/// In a window without nicks, Tab behind an at sign offers the chats of the
/// directory in their place, and in the status window it does nothing.
pub proof fn mentions_fall_back_on_the_directory(
    v: AppView,
    before: Seq<char>,
    word: Seq<char>,
)
    requires
        v.active matches Some(w) ==> w < v.windows.len() && v.windows[w as int].nicks.len() == 0,
        v.tab is None,
        ends_in_mention(v.input, before, word),
    ensures
        v.active is Some ==> offers(v, v.tabbed(), chats_found(v, word), before, "@"@, word),
        v.active is None ==> v.tabbed() == v,
{
    lemma_mention(v.input, before, word);
    if let Some(w) = v.active {
        lemma_chats_found(v, word);
        lemma_offers(
            v,
            v.mentionable(w as int, lower_word(word)),
            chats_found(v, word),
            before,
            "@"@,
            word,
        );
    }
}

/// In the status window, Tab leaves a line alone whose last word starts with an at
/// sign, even with a completion in progress, unless the line shows its candidate as
/// the argument of a command.
pub proof fn the_status_window_has_no_mentions(
    v: AppView,
    before: Seq<char>,
    word: Seq<char>,
)
    requires
        v.active is None,
        v.tab matches Some(t) ==> v.input != t.cmd_prefix + t.candidates[t.idx as int],
        ends_in_mention(v.input, before, word),
    ensures
        v.tabbed() == v,
{
    lemma_mention(v.input, before, word);
}

proof fn lemma_no_mention(line: Seq<char>)
    requires
        ends_in_no_mention(line),
    ensures
        mention_of(line) is None,
{
    lemma_last_at(line, '@');
    if let Some(i) = last_at(line, '@') {
        let before = line.take(i);
        let word = line.skip(i + 1);
        assert(line[i] == '@');
        if i > 0 {
            assert(before.last() == line[i - 1]);
        }
        if i == 0 || is_white(line[i - 1]) {
            let j = choose|j: int| i < j < line.len() && is_white(#[trigger] line[j]);
            assert(word[j - i - 1] == line[j]);
        }
    }
}

proof fn lemma_completable(line: Seq<char>, command: Seq<char>, word: Seq<char>)
    requires
        names_a_chat(line, command, word),
    ensures
        completable(line) == Some((command, word)),
{
    reveal_strlit("/join ");
    reveal_strlit("/msg ");
    reveal_strlit("/query ");
    reveal_strlit("/privmsg ");
    reveal_strlit("/whois ");
    reveal_strlit("/names ");
    assert(line.take(command.len() as int) =~= command);
    assert(line.skip(command.len() as int) =~= word);
    assert(line[1] == command[1]);
    if command != "/join "@ {
        lemma_not_prefix(line, "/join "@, 1);
    }
    if command != "/msg "@ {
        lemma_not_prefix(line, "/msg "@, 1);
    }
    if command != "/query "@ {
        lemma_not_prefix(line, "/query "@, 1);
    }
    if command != "/privmsg "@ {
        lemma_not_prefix(line, "/privmsg "@, 1);
    }
    if command != "/whois "@ {
        lemma_not_prefix(line, "/whois "@, 1);
    }
}

/// Behind a command that takes the name of a chat, Tab offers the chats of the
/// directory whose names start with what stands there, whichever window is in
/// front.
pub proof fn chats_are_completed_behind_commands(
    v: AppView,
    command: Seq<char>,
    word: Seq<char>,
)
    requires
        v.tab is None,
        names_a_chat(v.input, command, word),
    ensures
        offers(v, v.tabbed(), chats_found(v, word), command, Seq::empty(), word),
{
    lemma_no_mention(v.input);
    lemma_completable(v.input, command, word);
    lemma_chats_found(v, word);
    lemma_offers(
        v,
        chat_names(v.ordered_chats, lower_word(word)),
        chats_found(v, word),
        command,
        Seq::empty(),
        word,
    );
}

/// On a line whose last word does not start with an at sign, and that starts with no
/// command that takes the name of a chat, Tab does nothing.
pub proof fn other_lines_are_left_alone(v: AppView)
    requires
        v.tab is None,
        ends_in_no_mention(v.input),
        !"/join "@.is_prefix_of(v.input),
        !"/msg "@.is_prefix_of(v.input),
        !"/query "@.is_prefix_of(v.input),
        !"/privmsg "@.is_prefix_of(v.input),
        !"/whois "@.is_prefix_of(v.input),
        !"/names "@.is_prefix_of(v.input),
    ensures
        v.tabbed() == v,
{
    lemma_no_mention(v.input);
}

/// Where another word than that of the completion in progress stands on the line,
/// and not its candidate either, Tab does what it does when none is in progress.
pub proof fn other_words_begin_anew(v: AppView)
    requires
        v.tab matches Some(t) && {
            &&& t.idx < t.candidates.len()
            &&& v.input != t.cmd_prefix + t.candidates[t.idx as int]
            &&& v.input != t.cmd_prefix + "@"@ + t.candidates[t.idx as int]
            &&& v.input != t.cmd_prefix + t.word_start
            &&& v.input != t.cmd_prefix + "@"@ + t.word_start
        },
    ensures
        ({
            let anew = (AppView { tab: None, ..v }).tabbed();
            &&& v.tabbed().input == anew.input
            &&& v.tabbed().tab == if anew.tab is Some {
                anew.tab
            } else {
                v.tab
            }
            &&& v.tabbed() == (AppView { tab: v.tabbed().tab, input: v.tabbed().input, ..v })
        }),
{
    let t = v.tab->0;
    reveal_strlit("@");
    if let Some((before, word)) = mention_of(v.input) {
        lemma_last_at(v.input, '@');
        let i = last_at(v.input, '@')->0;
        assert(v.input =~= before + "@"@ + word);
    } else if let Some((prefix, word)) = completable(v.input) {
        assert(v.input =~= prefix + word);
    }
}

/// Where the very word of the completion in progress stands on the line again, and
/// not its candidate, Tab goes on to the next candidate in its place.
pub proof fn the_same_word_steps_on(v: AppView)
    requires
        v.tab matches Some(t) && {
            &&& t.idx < t.candidates.len() <= usize::MAX
            &&& v.input != t.cmd_prefix + t.candidates[t.idx as int]
            &&& v.input != t.cmd_prefix + "@"@ + t.candidates[t.idx as int]
            &&& (v.active is Some && ends_in_mention(v.input, t.cmd_prefix, t.word_start))
                || names_a_chat(v.input, t.cmd_prefix, t.word_start)
        },
    ensures
        ({
            let t = v.tab->0;
            let next: int = if t.idx + 1 < t.candidates.len() {
                t.idx + 1
            } else {
                0
            };
            let sep = if ends_in_mention(v.input, t.cmd_prefix, t.word_start) {
                "@"@
            } else {
                Seq::empty()
            };
            v.tabbed() == (AppView {
                tab: Some(TabView { idx: next as usize, ..t }),
                input: t.cmd_prefix + sep + t.candidates[next],
                ..v
            })
        }),
{
    let t = v.tab->0;
    let n = t.candidates.len() as int;
    if t.idx + 1 < n {
        lemma_small_mod((t.idx + 1) as nat, n as nat);
    } else {
        lemma_mod_self_0(n);
    }
    if ends_in_mention(v.input, t.cmd_prefix, t.word_start) {
        lemma_mention(v.input, t.cmd_prefix, t.word_start);
        if names_a_chat(v.input, t.cmd_prefix, t.word_start) {
            lemma_no_mention(v.input);
        }
    } else {
        lemma_no_mention(v.input);
        lemma_completable(v.input, t.cmd_prefix, t.word_start);
    }
}

/// Tab depends on the line, the completion in progress, the directory and the nicks
/// of the window in front, and on nothing else; what it changes is the line and the
/// completion in progress.
pub proof fn other_windows_have_no_part_in_tab(u: AppView, v: AppView)
    requires
        u.active == v.active,
        u.input == v.input,
        u.tab == v.tab,
        u.ordered_chats == v.ordered_chats,
        v.active matches Some(w) ==> u.windows[w as int].nicks == v.windows[w as int].nicks,
    ensures
        u.tabbed().tab == v.tabbed().tab,
        u.tabbed().input == v.tabbed().input,
        u.tabbed() == (AppView { tab: v.tabbed().tab, input: v.tabbed().input, ..u }),
{
}

} // verus!
