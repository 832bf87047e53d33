//! What is promised of the files: the windows that are remembered, and the themes.
use vstd::prelude::*;
use crate::action::{ActionView, AfterView};
use crate::app::{
    in_chat, lemma_first_window, lemma_first_window_is, window_of, AppView, EntryView,
    WindowActivity, WindowView,
};
use crate::chats::peer_among;
use crate::laws::steps::{has_no_window, shown_name};
use crate::peer::PeerView;
use crate::session::{
    active_entry, lemma_active_entry, lemma_entries_cons, restore_line, restore_lines, window_entry,
    window_lines, Restoring,
};
use crate::text::{
    decimal_int, decimal_of, entries_of, first_at, has_prefix, i64_of, is_digit, is_white,
    lemma_decimal_value, lemma_first_at, lemma_first_at_is, lemma_signed_reads_back,
    lemma_trim_clean, lowercase, split_all, trim, trim_end,
};
use crate::theme::{
    colors_of, default_theme, parsed_color, parsed_list, read_lines, theme_of, Color, Reading,
    ThemeView,
};

verus! {

// ── Saving the windows ───────────────────────────────────────────────────────

proof fn lemma_lines_push(ws: Seq<WindowView>, w: WindowView)
    ensures
        window_lines(ws.push(w)) == window_lines(ws) + window_entry(w) + "\n"@,
    decreases ws.len(),
{
    if ws.len() == 0 {
        reveal_with_fuel(window_lines, 2);
        assert(ws.push(w).drop_first() =~= Seq::empty());
        assert(window_lines(ws.push(w)) =~= window_entry(w) + "\n"@);
        assert(window_lines(ws) + window_entry(w) + "\n"@ =~= window_entry(w) + "\n"@);
    } else {
        assert(ws.push(w).drop_first() =~= ws.drop_first().push(w));
        lemma_lines_push(ws.drop_first(), w);
        assert(window_lines(ws.push(w)) =~= window_lines(ws) + window_entry(w) + "\n"@);
    }
}

/// What is saved has a line for each window in its order, with the number of its chat
/// and its name, behind a line with the place of the window in front, where that is
/// not the status window.
pub proof fn windows_are_saved_line_by_line(v: AppView, w: WindowView)
    ensures
        v.windows.len() == 0 ==> v.saved() == match v.active {
            Some(i) => "ACTIVE="@ + decimal_of(i as nat) + "\n"@,
            None => Seq::<char>::empty(),
        },
        (AppView { windows: v.windows.push(w), ..v }).saved() == v.saved() + (decimal_int(
            w.peer.id as int,
        ) + "|"@ + w.name) + "\n"@,
{
    lemma_lines_push(v.windows, w);
    let more = AppView { windows: v.windows.push(w), ..v };
    assert(more.saved() =~= v.saved() + window_entry(w) + "\n"@);
    if v.windows.len() == 0 {
        if let Some(i) = v.active {
            assert(active_entry(i) + "\n"@ + Seq::<char>::empty() =~= active_entry(i) + "\n"@);
        }
    }
}

// ── Opening them again ───────────────────────────────────────────────────────

/// The chat that is known under a name now, without regard to case.
pub open spec fn known_as(u: AppView, name: Seq<char>) -> Option<PeerView> {
    if u.all_chats.dom().contains(lowercase(name)) {
        Some(u.all_chats[lowercase(name)])
    } else {
        None
    }
}

proof fn lemma_first_of(chats: Seq<EntryView>, latest: Map<Seq<char>, PeerView>, id: i64)
    ensures
        match peer_among(chats, latest, id) {
            Some(p) => exists|i: int| #[trigger] leads_first(chats, latest, id, i, p),
            None => forall|i: int|
                0 <= i < chats.len() ==> (#[trigger] chats[i]).peer.id != id
                    && latest[chats[i].key].id != id,
        },
    decreases chats.len(),
{
    if chats.len() > 0 {
        let t = chats.drop_last();
        lemma_first_of(t, latest, id);
        match peer_among(t, latest, id) {
            Some(p) => {
                let i = choose|i: int| #[trigger] leads_first(t, latest, id, i, p);
                assert(t[i] == chats[i]);
                assert forall|j: int| 0 <= j < i implies (#[trigger] chats[j]).peer.id != id
                    && latest[chats[j].key].id != id by {
                    assert(t[j] == chats[j]);
                }
                assert(leads_first(chats, latest, id, i, p));
            },
            None => {
                assert forall|j: int| 0 <= j < t.len() implies (#[trigger] chats[j]).peer.id != id
                    && latest[chats[j].key].id != id by {
                    assert(t[j] == chats[j]);
                }
                if let Some(p) = peer_among(chats, latest, id) {
                    assert(leads_first(chats, latest, id, chats.len() - 1, p));
                }
            },
        }
    }
}

/// Whether entry `i` is the first of the directory that leads to the chat `id`, and
/// leads to `p`: to the chat now known under its name, or else to the one that was
/// known first.
pub open spec fn leads_first(
    chats: Seq<EntryView>,
    latest: Map<Seq<char>, PeerView>,
    id: i64,
    i: int,
    p: PeerView,
) -> bool {
    &&& 0 <= i < chats.len()
    &&& p.id == id
    &&& p == latest[chats[i].key] || (latest[chats[i].key].id != id && p == chats[i].peer)
    &&& forall|j: int|
        0 <= j < i ==> (#[trigger] chats[j]).peer.id != id && latest[chats[j].key].id != id
}

/// A chat that is looked for by its number is the one that the first entry with that
/// number leads to; none is found only where no entry has it.
pub proof fn numbers_lead_to_the_first_entry(v: AppView, id: i64)
    ensures
        match v.peer_of(id) {
            Some(p) => exists|i: int| #[trigger]
                leads_first(v.ordered_chats, v.all_chats, id, i, p),
            None => forall|i: int|
                0 <= i < v.ordered_chats.len() ==> (#[trigger] v.ordered_chats[i]).peer.id != id
                    && v.all_chats[v.ordered_chats[i].key].id != id,
        },
{
    lemma_first_of(v.ordered_chats, v.all_chats, id);
}

/// A line with a number and a name remembers the chat with that number, whatever it
/// is called now, or else the one of that name, as a line does that has no number
/// before its bar; a line without a bar remembers the chat of that name.
pub proof fn lines_remember_by_number_first(
    u: AppView,
    id: i64,
    other: Seq<char>,
    name: Seq<char>,
)
    requires
        forall|i: int| 0 <= i < other.len() ==> #[trigger] other[i] != '|',
        i64_of(other) is None,
    ensures
        u.remembered(other + "|"@ + name) == known_as(u, name),
        u.remembered(decimal_int(id as int) + "|"@ + name) == match u.peer_of(id) {
            Some(p) => Some(p),
            None => known_as(u, name),
        },
        (forall|i: int| 0 <= i < name.len() ==> #[trigger] name[i] != '|') ==> u.remembered(name)
            == known_as(u, name),
{
    reveal_strlit("|");
    let d = decimal_int(id as int);
    let line = d + "|"@ + name;
    let n = d.len() as int;
    let m = other.len() as int;
    let odd = other + "|"@ + name;
    assert(odd[m] == '|');
    assert forall|j: int| 0 <= j < m implies odd[j] != '|' by {
        assert(odd[j] == other[j]);
    }
    lemma_first_at_is(odd, '|', m);
    assert(odd.take(m) =~= other);
    assert(odd.skip(m + 1) =~= name);
    lemma_signed_reads_back(id);
    lemma_decimal_value((if id < 0 { -(id as int) } else { id as int }) as nat);
    assert forall|j: int| 0 <= j < n implies line[j] != '|' by {
        assert(line[j] == d[j]);
        if id < 0 {
            if j > 0 {
                assert(d[j] == decimal_of((-(id as int)) as nat)[j - 1]);
                assert(is_digit(decimal_of((-(id as int)) as nat)[j - 1]));
            }
        } else {
            assert(is_digit(decimal_of(id as nat)[j]));
        }
    }
    assert(line[n] == '|');
    lemma_first_at_is(line, '|', n);
    assert(line.take(n) =~= d);
    assert(line.skip(n + 1) =~= name);
    if forall|i: int| 0 <= i < name.len() ==> #[trigger] name[i] != '|' {
        lemma_first_at(name, '|');
        if first_at(name, '|') < name.len() {
            assert(name[first_at(name, '|') as int] == '|');
        }
    }
}

/// A state with a window for a chat, behind all others where it had none.
pub open spec fn with_window_for(u: AppView, peer: PeerView) -> AppView {
    if has_no_window(u, peer.id) {
        AppView {
            windows: u.windows.push(
                WindowView {
                    peer,
                    name: shown_name(peer),
                    unread: 0,
                    activity: WindowActivity::Quiet,
                    lines: Seq::empty(),
                    nicks: Seq::empty(),
                },
            ),
            ..u
        }
    } else {
        u
    }
}

/// A chat has its window, the one it had before or a new one behind all others.
pub proof fn chats_get_one_window(u: AppView, peer: PeerView)
    requires
        u.windows.len() < usize::MAX,
    ensures
        u.focused(peer) == with_window_for(u, peer),
        u.focus_index(peer) < u.focused(peer).windows.len(),
        u.focused(peer).windows[u.focus_index(peer) as int].peer.id == peer.id,
{
    lemma_window_for(u, peer);
    lemma_first_window(u.windows, in_chat(peer.id));
}

proof fn lemma_window_for(u: AppView, peer: PeerView)
    requires
        u.windows.len() <= usize::MAX,
    ensures
        u.focused(peer) == with_window_for(u, peer),
{
    lemma_first_window(u.windows, in_chat(peer.id));
    if has_no_window(u, peer.id) {
        lemma_first_window_is(u.windows, in_chat(peer.id), None);
    }
    let p = in_chat(peer.id);
    if window_of(u.windows, peer.id) is None {
        assert forall|j: int| 0 <= j < u.windows.len() implies (#[trigger] u.windows[j]).peer.id
            != peer.id by {
            assert(!p(u.windows[j]));
        }
    }
}

proof fn lemma_restore_cons(u: AppView, line: Seq<char>, rest: Seq<Seq<char>>)
    ensures
        ({
            let first = restore_line(Restoring { app: u, active: None, restored: 0 }, line);
            let whole = restore_lines(u, seq![line] + rest);
            let other = restore_lines(first.app, rest);
            &&& whole.app == other.app
            &&& whole.restored == first.restored + other.restored
            &&& whole.active == (if exists|i: int|
                0 <= i < rest.len() && has_prefix(#[trigger] rest[i], "ACTIVE="@) {
                other.active
            } else {
                first.active
            })
        }),
    decreases rest.len(),
{
    let start = Restoring { app: u, active: None, restored: 0 };
    let first = restore_line(start, line);
    let all = seq![line] + rest;
    if rest.len() == 0 {
        reveal_with_fuel(restore_lines, 2);
        assert(all.drop_last() =~= Seq::empty());
        assert(all.last() == line);
    } else {
        let t = rest.drop_last();
        lemma_restore_cons(u, line, t);
        assert(all.drop_last() =~= seq![line] + t);
        assert(all.last() == rest.last());
        if has_prefix(rest.last(), "ACTIVE="@) {
            assert(rest[rest.len() - 1] == rest.last());
        } else if exists|i: int|
            0 <= i < rest.len() && has_prefix(#[trigger] rest[i], "ACTIVE="@) {
            let i = choose|i: int|
                0 <= i < rest.len() && has_prefix(#[trigger] rest[i], "ACTIVE="@);
            assert(t[i] == rest[i]);
        }
        if exists|i: int| 0 <= i < t.len() && has_prefix(#[trigger] t[i], "ACTIVE="@) {
            let i = choose|i: int| 0 <= i < t.len() && has_prefix(#[trigger] t[i], "ACTIVE="@);
            assert(t[i] == rest[i]);
        }
    }
}

/// The lines of remembered windows are read in turn: each opens a window for the chat
/// that it remembers, unless there is one, and is passed over where it remembers
/// none.
pub proof fn windows_are_opened_line_by_line(u: AppView, line: Seq<char>, rest: Seq<char>)
    requires
        u.windows.len() <= usize::MAX,
        line.len() > 0,
        !is_white(line[0]),
        !is_white(line.last()),
        forall|i: int| 0 <= i < line.len() ==> #[trigger] line[i] != '\n',
        !"ACTIVE="@.is_prefix_of(line),
    ensures
        u.restored(line + "\n"@ + rest).windows == (match u.remembered(line) {
            Some(peer) => with_window_for(u, peer),
            None => u,
        }).restored(rest).windows,
{
    lemma_entries_cons(line, rest);
    lemma_trim_clean(line);
    assert(trim_end(line) == line);
    lemma_restore_cons(u, line, entries_of(rest));
    if has_prefix(line, "ACTIVE="@) {
        assert("ACTIVE="@ =~= line.subrange(0, "ACTIVE="@.len() as int));
    }
    if let Some(peer) = u.remembered(line) {
        lemma_window_for(u, peer);
    }
}

/// The lines that remember a chat that is known now.
pub open spec fn lines_known(u: AppView, lines: Seq<Seq<char>>) -> Seq<Seq<char>> {
    lines.filter(|l: Seq<char>| !"ACTIVE="@.is_prefix_of(l) && u.remembered(l) is Some)
}

proof fn lemma_counted(u: AppView, lines: Seq<Seq<char>>)
    requires
        u.windows.len() <= usize::MAX,
    ensures
        ({
            let st = restore_lines(u, lines);
            &&& st.restored == lines_known(u, lines).len()
            &&& st.restored == 0 ==> st.app == u
            &&& st.app.all_chats == u.all_chats
            &&& st.app.ordered_chats == u.ordered_chats
            &&& st.restored > 0 ==> st.app.windows.len() > 0
            &&& (forall|i: int|
                0 <= i < lines.len() ==> !"ACTIVE="@.is_prefix_of(#[trigger] lines[i]))
                ==> st.active is None
        }),
    decreases lines.len(),
{
    reveal(Seq::filter);
    if lines.len() > 0 {
        let t = lines.drop_last();
        let l = lines[lines.len() - 1];
        lemma_counted(u, t);
        let st = restore_lines(u, t);
        assert(st.app.remembered(l) == u.remembered(l));
        if "ACTIVE="@.len() <= l.len() {
            assert(l.take("ACTIVE="@.len() as int) =~= l.subrange(0, "ACTIVE="@.len() as int));
        }
        assert(has_prefix(l, "ACTIVE="@) <==> "ACTIVE="@.is_prefix_of(l));
        if forall|i: int| 0 <= i < lines.len() ==> !"ACTIVE="@.is_prefix_of(#[trigger] lines[i]) {
            assert forall|i: int| 0 <= i < t.len() implies !"ACTIVE="@.is_prefix_of(
                #[trigger] t[i],
            ) by {
                assert(t[i] == lines[i]);
            }
        }
    } else {
        assert(lines_known(u, lines) =~= Seq::empty());
    }
}

/// Where some line remembers a chat that is known, a window is in front afterwards,
/// its past is asked for, and all such lines are counted; the first window is in
/// front where no line gives a place. Where none does, nothing changes.
pub proof fn restored_windows_are_counted(u: AppView, contents: Seq<char>)
    requires
        u.windows.len() <= usize::MAX,
    ensures
        ({
            let after = u.restored(contents);
            let lines = entries_of(contents);
            let count = lines_known(u, lines).len();
            &&& count == 0 ==> after == u && u.restored_action(contents) == ActionView::Done
            &&& count > 0 ==> (after.active matches Some(i) && u.restored_action(contents) == (
            ActionView::LoadHistory {
                win: i,
                limit: 100,
                next: AfterView::Restored { count: count as usize },
            }))
            &&& count > 0 && (forall|i: int|
                0 <= i < lines.len() ==> !"ACTIVE="@.is_prefix_of(#[trigger] lines[i]))
                ==> after.active == Some(0usize)
        }),
{
    lemma_counted(u, entries_of(contents));
}

/// The window of the place that the first line gives is in front after remembered
/// windows were opened, or the last one where there are fewer; the place alone opens
/// nothing.
pub proof fn the_place_in_front_is_restored(u: AppView, n: usize, rest: Seq<char>)
    requires
        u.windows.len() <= usize::MAX,
        forall|i: int|
            0 <= i < entries_of(rest).len() ==> !"ACTIVE="@.is_prefix_of(
                #[trigger] entries_of(rest)[i],
            ),
    ensures
        ({
            let after = u.restored("ACTIVE="@ + decimal_of(n as nat) + "\n"@ + rest);
            let plain = u.restored(rest);
            &&& after.windows == plain.windows
            &&& after.active == if lines_known(u, entries_of(rest)).len() == 0 {
                u.active
            } else if n < plain.windows.len() {
                Some(n)
            } else {
                Some((plain.windows.len() - 1) as usize)
            }
        }),
{
    let lines = entries_of(rest);
    lemma_active_entry(n);
    lemma_entries_cons(active_entry(n), rest);
    lemma_restore_cons(u, active_entry(n), lines);
    lemma_counted(u, lines);
    assert forall|i: int| 0 <= i < lines.len() implies !has_prefix(
        #[trigger] lines[i],
        "ACTIVE="@,
    ) by {
        if has_prefix(lines[i], "ACTIVE="@) {
            assert("ACTIVE="@ =~= lines[i].subrange(0, "ACTIVE="@.len() as int));
        }
    }
    lemma_restore_keeps_front(u, lines);
}

proof fn lemma_restore_keeps_front(u: AppView, lines: Seq<Seq<char>>)
    ensures
        restore_lines(u, lines).app.active == u.active,
    decreases lines.len(),
{
    if lines.len() > 0 {
        lemma_restore_keeps_front(u, lines.drop_last());
    }
}

// ── Themes ───────────────────────────────────────────────────────────────────

/// A setting changes the colour that it names, to the colour it gives, and no other;
/// one that names nothing known, or gives no colour, changes nothing.
pub proof fn settings_change_one_color(t: ThemeView, key: Seq<char>, val: Seq<char>, c: Color)
    requires
        parsed_color(val) == Some(c),
    ensures
        t.with_setting("bar_bg"@, val) == (ThemeView { bar_bg: c, ..t }),
        t.with_setting("bar_fg"@, val) == (ThemeView { bar_fg: c, ..t }),
        t.with_setting("sys_msg"@, val) == (ThemeView { sys_msg: c, ..t }),
        t.with_setting("timestamp"@, val) == (ThemeView { timestamp: c, ..t }),
        t.with_setting("highlight_bg"@, val) == (ThemeView { highlight_bg: c, ..t }),
        t.with_setting("highlight_fg"@, val) == (ThemeView { highlight_fg: c, ..t }),
        t.with_setting("text_fg"@, val) == (ThemeView { text_fg: c, ..t }),
        key != "bar_bg"@ && key != "bar_fg"@ && key != "sys_msg"@ && key != "timestamp"@ && key
            != "highlight_bg"@ && key != "highlight_fg"@ && key != "text_fg"@ && key
            != "nick_colors"@ ==> t.with_setting(key, val) == t,
{
    lemma_keys();
}

/// A setting that gives no colour changes nothing, but for a list of nick colours.
pub proof fn bad_colors_change_nothing(t: ThemeView, key: Seq<char>, val: Seq<char>)
    requires
        parsed_color(val) is None,
        key != "nick_colors"@,
    ensures
        t.with_setting(key, val) == t,
{
}

proof fn lemma_keys()
    ensures
        "bar_bg"@ == seq!['b', 'a', 'r', '_', 'b', 'g'],
        "bar_fg"@ == seq!['b', 'a', 'r', '_', 'f', 'g'],
        "sys_msg"@ == seq!['s', 'y', 's', '_', 'm', 's', 'g'],
        "timestamp"@ == seq!['t', 'i', 'm', 'e', 's', 't', 'a', 'm', 'p'],
        "highlight_bg"@ == seq!['h', 'i', 'g', 'h', 'l', 'i', 'g', 'h', 't', '_', 'b', 'g'],
        "highlight_fg"@ == seq!['h', 'i', 'g', 'h', 'l', 'i', 'g', 'h', 't', '_', 'f', 'g'],
        "text_fg"@ == seq!['t', 'e', 'x', 't', '_', 'f', 'g'],
        "nick_colors"@ == seq!['n', 'i', 'c', 'k', '_', 'c', 'o', 'l', 'o', 'r', 's'],
        "bar_bg"@ != "bar_fg"@,
        "sys_msg"@ != "text_fg"@,
        "highlight_bg"@ != "highlight_fg"@,
{
    reveal_strlit("bar_bg");
    reveal_strlit("bar_fg");
    reveal_strlit("sys_msg");
    reveal_strlit("timestamp");
    reveal_strlit("highlight_bg");
    reveal_strlit("highlight_fg");
    reveal_strlit("text_fg");
    reveal_strlit("nick_colors");
    assert("bar_bg"@[4] == 'b');
    assert("bar_fg"@[4] == 'f');
    assert("sys_msg"@[0] == 's');
    assert("text_fg"@[0] == 't');
    assert("highlight_bg"@[10] == 'b');
    assert("highlight_fg"@[10] == 'f');
}

proof fn lemma_no_comma(s: Seq<char>)
    requires
        forall|i: int| 0 <= i < s.len() ==> #[trigger] s[i] != ',',
    ensures
        split_all(s, ',') == seq![s],
{
    lemma_first_at(s, ',');
    if first_at(s, ',') < s.len() {
        assert(s[first_at(s, ',') as int] == ',');
    }
}

proof fn lemma_comma(a: Seq<char>, b: Seq<char>)
    requires
        forall|i: int| 0 <= i < a.len() ==> #[trigger] a[i] != ',',
    ensures
        split_all(a + ","@ + b, ',') == seq![a] + split_all(b, ','),
{
    reveal_strlit(",");
    let s = a + ","@ + b;
    let n = a.len() as int;
    assert(s[n] == ',');
    assert forall|j: int| 0 <= j < n implies s[j] != ',' by {
        assert(s[j] == a[j]);
    }
    lemma_first_at_is(s, ',', n);
    assert(s.take(n) =~= a);
    assert(s.skip(n + 1) =~= b);
}

/// The colour that a piece of a list gives, if any, as a list.
pub open spec fn color_in(piece: Seq<char>) -> Seq<Color> {
    match parsed_color(trim(piece)) {
        Some(c) => seq![c],
        None => Seq::empty(),
    }
}

proof fn lemma_colors_cons(first: Option<Color>, rest: Seq<Option<Color>>)
    ensures
        colors_of(seq![first] + rest) == (match first {
            Some(c) => seq![c],
            None => Seq::empty(),
        }) + colors_of(rest),
    decreases rest.len(),
{
    let all = seq![first] + rest;
    if rest.len() == 0 {
        reveal_with_fuel(colors_of, 2);
        assert(all.drop_last() =~= Seq::empty());
        assert(all.last() == first);
        assert(colors_of(all) =~= (match first {
            Some(c) => seq![c],
            None => Seq::empty(),
        }) + colors_of(rest));
    } else {
        lemma_colors_cons(first, rest.drop_last());
        assert(all.drop_last() =~= seq![first] + rest.drop_last());
        assert(all.last() == rest.last());
        assert(colors_of(all) =~= (match first {
            Some(c) => seq![c],
            None => Seq::empty(),
        }) + colors_of(rest));
    }
}

/// A list of nick colours gives its colours in their order, passing over what is
/// none; one that gives no colour at all changes nothing, and nothing but the nick
/// colours changes.
pub proof fn nick_colors_are_listed(t: ThemeView, piece: Seq<char>, rest: Seq<char>)
    requires
        forall|i: int| 0 <= i < piece.len() ==> #[trigger] piece[i] != ',',
    ensures
        colors_of(parsed_list(piece)) == color_in(piece),
        colors_of(parsed_list(piece + ","@ + rest)) == color_in(piece) + colors_of(
            parsed_list(rest),
        ),
        t.with_setting("nick_colors"@, rest) == if colors_of(parsed_list(rest)).len() == 0 {
            t
        } else {
            ThemeView { nick_colors: colors_of(parsed_list(rest)), ..t }
        },
{
    lemma_no_comma(piece);
    lemma_comma(piece, rest);
    let first = parsed_color(trim(piece));
    assert(parsed_list(piece) =~= seq![first]);
    assert(parsed_list(piece + ","@ + rest) =~= seq![first] + parsed_list(rest));
    lemma_colors_cons(first, parsed_list(rest));
    lemma_colors_cons(first, Seq::empty());
    assert(seq![first] + Seq::<Option<Color>>::empty() =~= seq![first]);
    assert(colors_of(Seq::<Option<Color>>::empty()) =~= Seq::empty());
    assert(colors_of(seq![first]) =~= color_in(piece));
}

/// The lines of a theme file are read in turn: a comment changes nothing, a header
/// tells which section begins, and a setting counts in the section of the theme that
/// is asked for, and in no other.
pub proof fn theme_lines_are_read_in_turn(
    lines: Seq<Seq<char>>,
    name: Seq<char>,
    key: Seq<char>,
    val: Seq<char>,
    rest: Seq<char>,
    wanted: Seq<char>,
)
    requires
        forall|i: int| 0 <= i < key.len() ==> #[trigger] key[i] != '=',
        key.len() > 0 && key[0] != '#' && key[0] != ';' && key[0] != '[',
    ensures
        ({
            let st = read_lines(lines, wanted);
            &&& read_lines(lines.push("#"@ + rest), wanted) == st
            &&& read_lines(lines.push(";"@ + rest), wanted) == st
            &&& read_lines(lines.push("["@ + name + "]"@), wanted) == (Reading {
                in_target: name == wanted,
                theme: st.theme,
            })
            &&& read_lines(lines.push(key + "="@ + val), wanted) == (Reading {
                in_target: st.in_target,
                theme: if st.in_target {
                    st.theme.with_setting(trim(key), trim(val))
                } else {
                    st.theme
                },
            })
            &&& read_lines(Seq::empty(), wanted) == (Reading {
                in_target: false,
                theme: default_theme(),
            })
        }),
        forall|text: Seq<char>| #[trigger]
            theme_of(Some(text), wanted) == read_lines(entries_of(text), wanted).theme,
        theme_of(None, wanted) == default_theme(),
{
    reveal_strlit("#");
    reveal_strlit(";");
    reveal_strlit("[");
    reveal_strlit("]");
    reveal_strlit("=");
    let a = "#"@ + rest;
    let b = ";"@ + rest;
    let c = "["@ + name + "]"@;
    let d = key + "="@ + val;
    assert(lines.push(a).drop_last() =~= lines);
    assert(lines.push(b).drop_last() =~= lines);
    assert(lines.push(c).drop_last() =~= lines);
    assert(lines.push(d).drop_last() =~= lines);
    assert(a[0] == '#');
    assert(b[0] == ';');
    assert(c[0] == '[');
    assert(c.last() == ']');
    assert(c.subrange(1, c.len() - 1) =~= name);
    assert(d[0] == key[0]);
    let n = key.len() as int;
    assert(d[n] == '=');
    assert forall|j: int| 0 <= j < n implies d[j] != '=' by {
        assert(d[j] == key[j]);
    }
    lemma_first_at_is(d, '=', n);
    assert(d.take(n) =~= key);
    assert(d.skip(n + 1) =~= val);
}

/// A section for another theme changes nothing of the theme that is asked for,
/// wherever it stands behind.
pub proof fn other_sections_change_nothing(
    lines: Seq<Seq<char>>,
    other: Seq<char>,
    section: Seq<Seq<char>>,
    wanted: Seq<char>,
)
    requires
        other != wanted,
        forall|i: int|
            0 <= i < section.len() ==> !("["@.is_prefix_of(#[trigger] section[i])),
    ensures
        read_lines(lines + seq!["["@ + other + "]"@] + section, wanted).theme == read_lines(
            lines,
            wanted,
        ).theme,
{
    lemma_other_section(lines, other, section, wanted);
}

proof fn lemma_other_section(
    lines: Seq<Seq<char>>,
    other: Seq<char>,
    section: Seq<Seq<char>>,
    wanted: Seq<char>,
)
    requires
        other != wanted,
        forall|i: int|
            0 <= i < section.len() ==> !("["@.is_prefix_of(#[trigger] section[i])),
    ensures
        read_lines(lines + seq!["["@ + other + "]"@] + section, wanted) == (Reading {
            in_target: false,
            theme: read_lines(lines, wanted).theme,
        }),
    decreases section.len(),
{
    reveal_strlit("[");
    reveal_strlit("]");
    let head = "["@ + other + "]"@;
    let all = lines + seq![head] + section;
    if section.len() == 0 {
        assert(all.drop_last() =~= lines);
        assert(all.last() == head);
        assert(head[0] == '[');
        assert(head.last() == ']');
        assert(head.subrange(1, head.len() - 1) =~= other);
    } else {
        let t = section.drop_last();
        assert forall|i: int| 0 <= i < t.len() implies !("["@.is_prefix_of(#[trigger] t[i])) by {
            assert(t[i] == section[i]);
        }
        lemma_other_section(lines, other, t, wanted);
        assert(all.drop_last() =~= lines + seq![head] + t);
        let l = section[section.len() - 1];
        assert(all.last() == l);
        if l.len() > 0 && l[0] == '[' {
            assert("["@ =~= l.subrange(0, 1));
        }
    }
}

/// The built-in theme.
pub proof fn the_built_in_theme()
    ensures
        default_theme() == (ThemeView {
            bar_bg: Color::Blue,
            bar_fg: Color::White,
            sys_msg: Color::Cyan,
            timestamp: Color::DarkGray,
            highlight_bg: Color::Magenta,
            highlight_fg: Color::Black,
            text_fg: Color::Reset,
            nick_colors: seq![
                Color::Cyan,
                Color::Green,
                Color::Yellow,
                Color::Magenta,
                Color::Red,
                Color::LightCyan,
                Color::LightGreen,
                Color::LightYellow,
                Color::LightMagenta,
                Color::LightRed,
            ],
        }),
{
}

} // verus!
