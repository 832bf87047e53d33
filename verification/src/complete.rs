//! Completion of names with the Tab key.
use vstd::prelude::*;
use crate::app::{entries_view, App, AppView, ChatEntry, EntryView, TabState, TabView};
use crate::order::{dedup_names, dedup_of, sort_names, sort_of};
use crate::history::wrapped;
use crate::text::{
    has_prefix, is_white, is_word, lower, lower_word, lowercase, lowered, opt_str, rsplit_once,
    same, split_last, starts_with, strip_prefix, texts, white, word_only,
};

verus! {

/// The chats whose names start with the lower-case text `lc`, by the names to show.
pub open spec fn chat_names(chats: Seq<EntryView>, lc: Seq<char>) -> Seq<Seq<char>> {
    chats.filter(|e: EntryView| has_prefix(e.key, lc)).map_values(|e: EntryView| e.peer.label())
}

/// The nicks that start with the lower-case text `lc`, without regard to case.
pub open spec fn nicks_like(nicks: Seq<Seq<char>>, lc: Seq<char>) -> Seq<Seq<char>> {
    nicks.filter(|n: Seq<char>| has_prefix(lowercase(n), lc))
}

/// The candidates that are offered out of the names found: sorted, without
/// repeats.
pub open spec fn offered(found: Seq<Seq<char>>) -> Seq<Seq<char>> {
    dedup_of(sort_of(found))
}

/// The command whose argument a line begins, with the argument so far.
pub open spec fn completable(line: Seq<char>) -> Option<(Seq<char>, Seq<char>)> {
    if has_prefix(line, "/join "@) {
        Some(("/join "@, line.skip("/join "@.len() as int)))
    } else if has_prefix(line, "/msg "@) {
        Some(("/msg "@, line.skip("/msg "@.len() as int)))
    } else if has_prefix(line, "/query "@) {
        Some(("/query "@, line.skip("/query "@.len() as int)))
    } else if has_prefix(line, "/privmsg "@) {
        Some(("/privmsg "@, line.skip("/privmsg "@.len() as int)))
    } else if has_prefix(line, "/whois "@) {
        Some(("/whois "@, line.skip("/whois "@.len() as int)))
    } else if has_prefix(line, "/names "@) {
        Some(("/names "@, line.skip("/names "@.len() as int)))
    } else {
        None
    }
}

/// Whether a word can start behind a text: at the start of the line, or behind
/// white space.
pub open spec fn ends_word(s: Seq<char>) -> bool {
    s.len() == 0 || is_white(s.last())
}

/// The parts of a line before and after the at sign that its last word starts
/// with, where it starts with one.
pub open spec fn mention_of(line: Seq<char>) -> Option<(Seq<char>, Seq<char>)> {
    match split_last(line, '@') {
        Some((before, partial)) => if ends_word(before) && is_word(partial) {
            Some((before, partial))
        } else {
            None
        },
        None => None,
    }
}

impl AppView {
    /// The names that can be mentioned: the nicks of the window in front, or the
    /// chats of the directory where it has none.
    pub open spec fn mentionable(self, window: int, lc: Seq<char>) -> Seq<Seq<char>> {
        let nicks = self.windows[window].nicks;
        if nicks.len() > 0 {
            nicks_like(nicks, lc)
        } else {
            chat_names(self.ordered_chats, lc)
        }
    }

    /// Whether the completion in progress is of this very word.
    pub open spec fn completing(self, prefix: Seq<char>, word: Seq<char>) -> bool {
        self.tab matches Some(t) && t.cmd_prefix == prefix && t.word_start == word
    }

    /// What stands between the prefix and the candidate of the completion in
    /// progress, where the line is just these: an at sign, or nothing.
    pub open spec fn in_place(self) -> Option<Seq<char>> {
        match self.tab {
            Some(t) => {
                let name = t.candidates[t.idx as int];
                if self.active is Some && self.input == t.cmd_prefix + "@"@ + name {
                    Some("@"@)
                } else if self.input == t.cmd_prefix + name {
                    Some(Seq::empty())
                } else {
                    None
                }
            },
            None => None,
        }
    }

    /// The state with the next candidate of the completion in progress on the line,
    /// behind the prefix and `sep`.
    pub open spec fn stepped(self, sep: Seq<char>) -> AppView {
        let t = self.tab->0;
        let idx = ((t.idx + 1) % t.candidates.len() as int) as usize;
        AppView {
            tab: Some(TabView { idx, ..t }),
            input: t.cmd_prefix + sep + t.candidates[idx as int],
            ..self
        }
    }

    /// The state after completing `word` behind `prefix` and `sep`: with the next
    /// candidate where the completion in progress is of this word, or else with
    /// the first of the names found, if any.
    pub open spec fn completed(
        self,
        prefix: Seq<char>,
        word: Seq<char>,
        sep: Seq<char>,
        found: Seq<Seq<char>>,
    ) -> AppView {
        if self.completing(prefix, word) {
            self.stepped(sep)
        } else if offered(found).len() > 0 {
            AppView {
                tab: Some(
                    TabView {
                        candidates: offered(found),
                        idx: 0,
                        cmd_prefix: prefix,
                        word_start: word,
                    },
                ),
                input: prefix + sep + offered(found)[0],
                ..self
            }
        } else {
            self
        }
    }

    /// The state after the word on the line is completed: a name behind an at sign,
    /// or the argument of a command.
    pub open spec fn begun(self) -> AppView {
        match mention_of(self.input) {
            Some((before, partial)) => match self.active {
                Some(w) => self.completed(
                    before,
                    partial,
                    "@"@,
                    self.mentionable(w as int, lower_word(partial)),
                ),
                None => self,
            },
            None => match completable(self.input) {
                Some((prefix, partial)) => self.completed(
                    prefix,
                    partial,
                    Seq::empty(),
                    chat_names(self.ordered_chats, lower_word(partial)),
                ),
                None => self,
            },
        }
    }

    /// The state after the Tab key: with the next candidate where one stands on the
    /// line, or else with the word on the line completed.
    pub open spec fn tabbed(self) -> AppView {
        match self.in_place() {
            Some(sep) => self.stepped(sep),
            None => self.begun(),
        }
    }
}

/// The chats whose names start with the lower-case text `lc`, by the names to show.
pub fn list_chats(chats: &Vec<ChatEntry>, lc: &str) -> (r: Vec<String>)
    ensures
        texts(r@) == chat_names(entries_view(chats@), lc@),
{
    let ghost all = entries_view(chats@);
    let ghost keep = |e: EntryView| has_prefix(e.key, lc@);
    let ghost show = |e: EntryView| e.peer.label();
    let mut out: Vec<String> = Vec::new();
    let mut i: usize = 0;
    proof {
        reveal(Seq::filter);
        assert(texts(out@) =~= all.take(0).filter(keep).map_values(show));
    }
    while i < chats.len()
        invariant
            i <= chats@.len(),
            all == entries_view(chats@),
            keep == (|e: EntryView| has_prefix(e.key, lc@)),
            show == (|e: EntryView| e.peer.label()),
            texts(out@) == all.take(i as int).filter(keep).map_values(show),
        decreases chats.len() - i,
    {
        let ghost before = out@;
        proof {
            reveal(Seq::filter);
            assert(all.take(i + 1).drop_last() == all.take(i as int));
            assert(all[i as int] == chats@[i as int]@);
        }
        if starts_with(chats[i].key.as_str(), lc) {
            out.push(chats[i].peer.label().to_owned());
            assert(texts(out@) =~= texts(before).push(chats@[i as int].peer@.label()));
            assert(all.take(i + 1).filter(keep) == all.take(i as int).filter(keep).push(
                all[i as int],
            ));
            assert(all.take(i + 1).filter(keep).map_values(show) =~= all.take(i as int).filter(
                keep,
            ).map_values(show).push(show(all[i as int])));
        } else {
            assert(all.take(i + 1).filter(keep) == all.take(i as int).filter(keep));
        }
        i = i + 1;
    }
    assert(all.take(i as int) == all);
    out
}

/// The nicks that start with the lower-case text `lc`, without regard to case.
pub fn list_nicks(nicks: &Vec<String>, lc: &str) -> (r: Vec<String>)
    ensures
        texts(r@) == nicks_like(texts(nicks@), lc@),
{
    let ghost all = texts(nicks@);
    let ghost keep = |n: Seq<char>| has_prefix(lowercase(n), lc@);
    let mut out: Vec<String> = Vec::new();
    let mut i: usize = 0;
    proof {
        reveal(Seq::filter);
        assert(texts(out@) =~= all.take(0).filter(keep));
    }
    while i < nicks.len()
        invariant
            i <= nicks@.len(),
            all == texts(nicks@),
            keep == (|n: Seq<char>| has_prefix(lowercase(n), lc@)),
            texts(out@) == all.take(i as int).filter(keep),
        decreases nicks.len() - i,
    {
        let ghost before = out@;
        proof {
            reveal(Seq::filter);
            assert(all.take(i + 1).drop_last() == all.take(i as int));
            assert(all[i as int] == nicks@[i as int]@);
        }
        let low = lower(nicks[i].as_str());
        if starts_with(low.as_str(), lc) {
            out.push(nicks[i].clone());
            assert(texts(out@) =~= texts(before).push(nicks@[i as int]@));
        }
        i = i + 1;
    }
    assert(all.take(i as int) == all);
    out
}

/// The command whose argument a line begins, with the argument so far.
pub fn command_argument<'a>(line: &'a str) -> (r: Option<(&'static str, &'a str)>)
    ensures
        match r {
            Some(p) => completable(line@) == Some((p.0@, p.1@)),
            None => completable(line@) is None,
        },
{
    if let Some(r) = strip_prefix(line, "/join ") {
        Some(("/join ", r))
    } else if let Some(r) = strip_prefix(line, "/msg ") {
        Some(("/msg ", r))
    } else if let Some(r) = strip_prefix(line, "/query ") {
        Some(("/query ", r))
    } else if let Some(r) = strip_prefix(line, "/privmsg ") {
        Some(("/privmsg ", r))
    } else if let Some(r) = strip_prefix(line, "/whois ") {
        Some(("/whois ", r))
    } else if let Some(r) = strip_prefix(line, "/names ") {
        Some(("/names ", r))
    } else {
        None
    }
}

/// The parts of a line before and after the at sign that its last word starts
/// with, where it starts with one.
pub fn find_mention<'a>(line: &'a str) -> (r: Option<(&'a str, &'a str)>)
    ensures
        match r {
            Some(p) => mention_of(line@) == Some((p.0@, p.1@)),
            None => mention_of(line@) is None,
        },
{
    match rsplit_once(line, '@') {
        Some((before, partial)) => {
            let n = before.unicode_len();
            if (n == 0 || white(before.get_char(n - 1))) && word_only(partial) {
                Some((before, partial))
            } else {
                None
            }
        },
        None => None,
    }
}

impl App {
    /// Completes `word` behind `prefix` and `sep` out of the names found.
    fn complete(&mut self, prefix: &str, word: &str, sep: &str, found: &Vec<String>)
        requires
            old(self).wf(),
        ensures
            final(self).wf(),
            final(self)@ == old(self)@.completed(prefix@, word@, sep@, texts(found@)),
    {
        let ghost before = self@;
        let again = match &self.tab {
            Some(t) => same(t.cmd_prefix.as_str(), prefix) && same(t.word_start.as_str(), word),
            None => false,
        };
        if again {
            self.step(sep);
            return;
        }
        let candidates = dedup_names(&sort_names(found));
        if candidates.len() == 0 {
            return;
        }
        let mut line = prefix.to_owned();
        line.append(sep);
        line.append(candidates[0].as_str());
        assert(texts(candidates@)[0] == candidates@[0]@);
        self.input = line;
        self.tab = Some(
            TabState {
                candidates,
                idx: 0,
                cmd_prefix: prefix.to_owned(),
                word_start: word.to_owned(),
            },
        );
        assert(self@ =~= before.completed(prefix@, word@, sep@, texts(found@)));
    }

    /// Puts the next candidate of the completion in progress on the line, behind the
    /// prefix and `sep`.
    fn step(&mut self, sep: &str)
        requires
            old(self).wf(),
            old(self)@.tab is Some,
        ensures
            final(self).wf(),
            final(self)@ == old(self)@.stepped(sep@),
    {
        let ghost before = self@;
        let mut line = String::new();
        if let Some(t) = &mut self.tab {
            let n = t.candidates.len();
            assert(before.tab == Some(t@));
            assert(t.idx < n);
            let idx = (t.idx + 1) % n;
            t.idx = idx;
            line = t.cmd_prefix.clone();
            line.append(sep);
            line.append(t.candidates[idx].as_str());
            assert(t@.candidates[idx as int] == t.candidates@[idx as int]@);
        }
        self.input = line;
        assert(self@ =~= before.stepped(sep@));
    }

    /// What stands between the prefix and the candidate of the completion in
    /// progress, where the line is just these.
    fn find_in_place(&self) -> (r: Option<&'static str>)
        requires
            self.wf(),
        ensures
            opt_str(r) == self@.in_place(),
    {
        match &self.tab {
            Some(t) => {
                assert(self@.tab == Some(t@));
                assert(t@.candidates[t.idx as int] == t.candidates@[t.idx as int]@);
                let name = t.candidates[t.idx].as_str();
                let mention = wrapped(t.cmd_prefix.as_str(), "@", name);
                if self.active.is_some() && same(self.input.as_str(), mention.as_str()) {
                    return Some("@");
                }
                let argument = wrapped(t.cmd_prefix.as_str(), "", name);
                proof {
                    reveal_strlit("");
                    assert(""@ =~= Seq::<char>::empty());
                    assert(argument@ =~= t@.cmd_prefix + name@);
                }
                if same(self.input.as_str(), argument.as_str()) {
                    Some("")
                } else {
                    None
                }
            },
            None => None,
        }
    }

    /// Completes the word on the line: a name behind an at sign, or the argument of a
    /// command.
    fn begin(&mut self)
        requires
            old(self).wf(),
        ensures
            final(self).wf(),
            final(self)@ == old(self)@.begun(),
    {
        let raw = self.input.clone();
        match find_mention(raw.as_str()) {
            Some((before, partial)) => {
                if let Some(w) = self.active {
                    let lc = lowered(partial);
                    assert(self@.windows[w as int] == self.windows@[w as int]@);
                    let found = if self.windows[w].nicks.len() > 0 {
                        list_nicks(&self.windows[w].nicks, lc.as_str())
                    } else {
                        list_chats(&self.ordered_chats, lc.as_str())
                    };
                    self.complete(before, partial, "@", &found);
                }
            },
            None => {
                if let Some((prefix, partial)) = command_argument(raw.as_str()) {
                    let lc = lowered(partial);
                    let found = list_chats(&self.ordered_chats, lc.as_str());
                    proof {
                        reveal_strlit("");
                        assert(""@ =~= Seq::<char>::empty());
                    }
                    self.complete(prefix, partial, "", &found);
                }
            },
        }
    }

    /// The Tab key: steps on to the next candidate where one stands on the line, or
    /// else completes the name behind the at sign that the last word starts with, or
    /// the argument of a command.
    pub fn do_tab(&mut self)
        requires
            old(self).wf(),
        ensures
            final(self).wf(),
            final(self)@ == old(self)@.tabbed(),
    {
        match self.find_in_place() {
            Some(sep) => self.step(sep),
            None => self.begin(),
        }
    }

    /// Forgets the completion in progress.
    pub fn reset_tab(&mut self)
        requires
            old(self).wf(),
        ensures
            final(self).wf(),
            final(self)@ == (AppView { tab: None, ..old(self)@ }),
    {
        let ghost before = self@;
        self.tab = None;
        assert(self@ =~= (AppView { tab: None, ..before }));
    }
}

} // verus!
