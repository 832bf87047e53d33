//! What is promised of the screen.
use vstd::arithmetic::div_mod::{lemma_add_mod_noop, lemma_mod_twice, lemma_small_mod};
use vstd::prelude::*;
use vstd::utf8::encode_utf8;
use crate::app::{AppView, LineView, TabView, WindowActivity, WindowView};
use crate::bar::{busy_note, busy_numbers, front_tab_is_shown, grown_right, tabs_len};
use crate::input::other_candidates;
use crate::pane::{columns_of, line_spans, newest_lines_are_shown, rows_for, shown_from, tail_rows};
use crate::style::{display_width, SpanView};
use crate::text::{decimal_of, join_of, spaces_of};
use crate::theme::{byte_sum, nick_color_of, Color, ThemeView};
use crate::ui::{screen_rows, Area, Rows};

verus! {

// ── Vocabulary ───────────────────────────────────────────────────────────────

/// Plain text in a colour.
pub open spec fn plain_text(text: Seq<char>, color: Color) -> SpanView {
    SpanView { text, fg: Some(color), bg: None, bold: false }
}

/// Bold text in a colour.
pub open spec fn bold_text(text: Seq<char>, color: Color) -> SpanView {
    SpanView { text, fg: Some(color), bg: None, bold: true }
}

/// Text in a colour on the background of the bars.
pub open spec fn bar_text(text: Seq<char>, color: Color, theme: ThemeView, bold: bool) -> SpanView {
    SpanView { text, fg: Some(color), bg: Some(theme.bar_bg), bold }
}

/// The name of the window in front.
pub open spec fn name_in_front(v: AppView) -> Seq<char> {
    match v.active {
        Some(i) => v.windows[i as int].name,
        None => "(status)"@,
    }
}

/// A line as it is drawn: its time, then its prefix and its text, in the colours of
/// the theme; a line that calls for attention stands out as a whole, and a message
/// has the colour of its sender before it.
pub open spec fn drawn(l: LineView, theme: ThemeView) -> Seq<SpanView> {
    let time = plain_text(l.ts + " "@, theme.timestamp);
    if l.is_sys {
        seq![
            time,
            bold_text(l.prefix + " "@, theme.sys_msg),
            plain_text(l.text, theme.sys_msg),
        ]
    } else if l.is_highlight {
        seq![time, bold_text(l.prefix + " "@ + l.text, theme.highlight_bg)]
    } else {
        seq![
            time,
            bold_text(
                l.prefix + " "@,
                match l.nick {
                    Some(nick) => nick_color_of(nick, theme),
                    None => theme.bar_fg,
                },
            ),
            plain_text(l.text, theme.text_fg),
        ]
    }
}

/// How many rows a line takes up on a pane that is `width` columns wide: enough for
/// its columns, and at least one.
pub open spec fn rows_taken_by(l: LineView, width: u16) -> nat {
    let columns = display_width(l.ts + " "@ + l.prefix + " "@ + l.text) as nat;
    let w: nat = if width == 0 {
        1
    } else {
        width as nat
    };
    if columns == 0 {
        1
    } else {
        ((columns + w - 1) as nat) / w
    }
}

/// How many rows lines take up together.
pub open spec fn rows_taken(lines: Seq<LineView>, width: u16) -> nat
    decreases lines.len(),
{
    if lines.len() == 0 {
        0
    } else {
        rows_taken_by(lines[0], width) + rows_taken(lines.drop_first(), width)
    }
}

/// Whether rows show lines at the bottom of a pane: the last ones, from line `start`
/// on, in their order and each as it is drawn, below as many empty rows as are left.
/// These lines fit, and one more would not.
pub open spec fn shows_newest(
    rows: Seq<Seq<SpanView>>,
    lines: Seq<LineView>,
    start: int,
    width: u16,
    height: u16,
    theme: ThemeView,
) -> bool {
    let shown = lines.skip(start);
    let blank = height - rows_taken(shown, width);
    &&& 0 <= start <= lines.len()
    &&& blank >= 0
    &&& rows.len() == blank + shown.len()
    &&& forall|j: int| 0 <= j < blank ==> (#[trigger] rows[j]).len() == 0
    &&& forall|m: int|
        0 <= m < shown.len() ==> rows[blank + m] == #[trigger] drawn(shown[m], theme)
    &&& start > 0 ==> rows_taken(lines.skip(start - 1), width) > height
}

// ── The scrollback ───────────────────────────────────────────────────────────

proof fn lemma_rows_taken_by(lines: Seq<LineView>, k: int, width: u16)
    requires
        0 <= k < lines.len(),
    ensures
        rows_for(columns_of(lines)[k], width) == rows_taken_by(lines[k], width),
{
    let l = lines[k];
    let n = display_width(l.ts + " "@ + l.prefix + " "@ + l.text) as nat;
    assert(columns_of(lines)[k] == n);
    let w: nat = if width == 0 {
        1
    } else {
        width as nat
    };
    if n > 0 {
        assert((n - 1) as nat / w + 1 == ((n + w - 1) as nat) / w) by (nonlinear_arith)
            requires
                w > 0,
                n > 0,
        ;
    }
}

proof fn lemma_rows_taken(lines: Seq<LineView>, k: int, width: u16)
    requires
        0 <= k <= lines.len(),
    ensures
        tail_rows(columns_of(lines), k, width) == rows_taken(lines.skip(k), width),
    decreases lines.len() - k,
{
    if k < lines.len() {
        lemma_rows_taken(lines, k + 1, width);
        lemma_rows_taken_by(lines, k, width);
        assert(lines.skip(k).drop_first() =~= lines.skip(k + 1));
        assert(lines.skip(k)[0] == lines[k]);
    } else {
        assert(lines.skip(k).len() == 0);
    }
}

proof fn lemma_pane(v: AppView, lines: Seq<LineView>, width: u16, height: u16)
    requires
        v.front_lines() == lines,
        lines.len() > 0,
    ensures
        v.pane(width, height).wrap,
        shows_newest(
            v.pane(width, height).rows,
            lines,
            shown_from(columns_of(lines), width, height),
            width,
            height,
            v.theme,
        ),
{
    let cols = columns_of(lines);
    let start = shown_from(cols, width, height);
    newest_lines_are_shown(cols, width, height, lines.len() as int);
    newest_lines_are_shown(cols, width, height, start);
    lemma_rows_taken(lines, start, width);
    if start > 0 {
        newest_lines_are_shown(cols, width, height, start - 1);
        lemma_rows_taken(lines, start - 1, width);
    }
    let rows = v.pane(width, height).rows;
    let shown = lines.skip(start);
    let blank = height - rows_taken(shown, width);
    assert forall|m: int| 0 <= m < shown.len() implies rows[blank + m] == #[trigger] drawn(
        shown[m],
        v.theme,
    ) by {
        assert(rows[blank + m] == line_spans(shown[m], v.theme));
        assert(line_spans(shown[m], v.theme) =~= drawn(shown[m], v.theme));
    }
}

/// The pane shows the newest lines of the very window that is in front, as many as
/// fit, the last one in the last row.
pub proof fn the_pane_shows_the_window_in_front(
    v: AppView,
    i: usize,
    width: u16,
    height: u16,
)
    requires
        v.active == Some(i),
        v.windows[i as int].lines.len() > 0,
    ensures
        v.pane(width, height).wrap,
        exists|start: int| #[trigger]
            shows_newest(
                v.pane(width, height).rows,
                v.windows[i as int].lines,
                start,
                width,
                height,
                v.theme,
            ),
        rows_taken_by(v.windows[i as int].lines.last(), width) <= height ==> v.pane(
            width,
            height,
        ).rows.last() == drawn(v.windows[i as int].lines.last(), v.theme),
{
    let lines = v.windows[i as int].lines;
    lemma_pane(v, lines, width, height);
    lemma_last_row(v, lines, width, height);
}

proof fn lemma_last_row(v: AppView, lines: Seq<LineView>, width: u16, height: u16)
    requires
        v.front_lines() == lines,
        lines.len() > 0,
    ensures
        rows_taken_by(lines.last(), width) <= height ==> v.pane(width, height).rows.last() == drawn(
            lines.last(),
            v.theme,
        ),
{
    lemma_pane(v, lines, width, height);
    let cols = columns_of(lines);
    let start = shown_from(cols, width, height);
    let n = lines.len() as int;
    if rows_taken_by(lines.last(), width) <= height {
        lemma_rows_taken(lines, n - 1, width);
        assert(lines.skip(n - 1).drop_first().len() == 0);
        assert(lines.skip(n - 1)[0] == lines.last());
        assert(rows_taken(lines.skip(n - 1).drop_first(), width) == 0);
        newest_lines_are_shown(cols, width, height, n - 1);
        let shown = lines.skip(start);
        let rows = v.pane(width, height).rows;
        let blank = height - rows_taken(shown, width);
        assert(shown[shown.len() - 1] == lines.last());
        assert(rows[blank + (shown.len() - 1)] == drawn(shown[shown.len() - 1], v.theme));
    }
}

/// Where the status window is in front, the pane shows the newest of its lines in the
/// same way; and a window without lines shows where to find help.
pub proof fn the_pane_shows_the_status_window(v: AppView, width: u16, height: u16)
    ensures
        v.active is None && v.status_lines.len() > 0 ==> v.pane(width, height).wrap && exists|
            start: int,
        | #[trigger]
            shows_newest(
                v.pane(width, height).rows,
                v.status_lines,
                start,
                width,
                height,
                v.theme,
            ),
        (match v.active {
            Some(i) => v.windows[i as int].lines,
            None => v.status_lines,
        }).len() == 0 ==> v.pane(width, height).rows == seq![
            seq![plain_text("No messages. /help for commands."@, v.theme.timestamp)],
        ] && !v.pane(width, height).wrap,
{
    if v.active is None && v.status_lines.len() > 0 {
        lemma_pane(v, v.status_lines, width, height);
    }
}

/// The pane depends on the lines of the window in front and on the theme alone.
pub proof fn other_windows_have_no_part_in_the_pane(
    u: AppView,
    v: AppView,
    width: u16,
    height: u16,
)
    requires
        u.active == v.active,
        u.theme == v.theme,
        v.active matches Some(i) ==> u.windows[i as int].lines == v.windows[i as int].lines,
        v.active is None ==> u.status_lines == v.status_lines,
    ensures
        u.pane(width, height) == v.pane(width, height),
{
}

// ── The colour of a nick ─────────────────────────────────────────────────────

/// The sum of bytes.
pub open spec fn total(bytes: Seq<u8>) -> nat
    decreases bytes.len(),
{
    if bytes.len() == 0 {
        0
    } else {
        total(bytes.drop_last()) + bytes.last() as nat
    }
}

proof fn lemma_total(bytes: Seq<u8>)
    ensures
        byte_sum(bytes) as int == total(bytes) as int % (usize::MAX as int + 1),
    decreases bytes.len(),
{
    let m = usize::MAX as int + 1;
    if bytes.len() == 0 {
        lemma_small_mod(0, m as nat);
    } else {
        let t = bytes.drop_last();
        lemma_total(t);
        let b = bytes.last() as int;
        lemma_add_mod_noop(total(t) as int, b, m);
        lemma_mod_twice(total(t) as int, m);
        lemma_add_mod_noop(total(t) as int % m, b, m);
    }
}

/// A nick has the colour at the place that the sum of its bytes gives, counted round
/// the nick colours of the theme; where the theme has none, the colour of the bars.
pub proof fn nick_colors_go_by_the_bytes(name: Seq<char>, theme: ThemeView)
    ensures
        nick_color_of(name, theme) == if theme.nick_colors.len() == 0 {
            theme.bar_fg
        } else {
            theme.nick_colors[(total(encode_utf8(name)) as int % (usize::MAX as int + 1))
                % theme.nick_colors.len() as int]
        },
{
    lemma_total(encode_utf8(name));
}

// ── The topic bar ────────────────────────────────────────────────────────────

/// Whether `ids` are the windows where something has happened, in their order.
pub open spec fn are_busy(ws: Seq<WindowView>, ids: Seq<int>) -> bool {
    &&& forall|a: int, b: int| 0 <= a < b < ids.len() ==> #[trigger] ids[a] < #[trigger] ids[b]
    &&& forall|i: int| #[trigger]
        ids.contains(i) <==> 0 <= i < ws.len() && ws[i].activity != WindowActivity::Quiet
}

proof fn lemma_busy(ws: Seq<WindowView>, n: int) -> (ids: Seq<int>)
    requires
        0 <= n <= ws.len(),
    ensures
        ids == Seq::new(n as nat, |i: int| i).filter(
            |i: int| ws[i].activity != WindowActivity::Quiet,
        ),
        forall|a: int, b: int| 0 <= a < b < ids.len() ==> #[trigger] ids[a] < #[trigger] ids[b],
        forall|i: int| #[trigger]
            ids.contains(i) <==> 0 <= i < n && ws[i].activity != WindowActivity::Quiet,
    decreases n,
{
    reveal(Seq::filter);
    let busy = |i: int| ws[i].activity != WindowActivity::Quiet;
    let all = Seq::new(n as nat, |i: int| i);
    if n == 0 {
        assert(all.filter(busy) =~= Seq::empty());
        Seq::empty()
    } else {
        let before = lemma_busy(ws, n - 1);
        assert(all.drop_last() =~= Seq::new((n - 1) as nat, |i: int| i));
        assert(all.last() == n - 1);
        let ids = all.filter(busy);
        assert(ids == if busy(n - 1) { before.push(n - 1) } else { before });
        assert forall|a: int, b: int| 0 <= a < b < ids.len() implies #[trigger] ids[a]
            < #[trigger] ids[b] by {
            assert(before.contains(before[a]));
            if b < before.len() {
                assert(before[a] < before[b]);
            }
        }
        assert forall|i: int| #[trigger] ids.contains(i) <==> 0 <= i < n && ws[i].activity
            != WindowActivity::Quiet by {
            if ids.contains(i) {
                let a = choose|a: int| 0 <= a < ids.len() && ids[a] == i;
                if a < before.len() {
                    assert(before[a] == i);
                    assert(before.contains(i));
                }
            }
            if 0 <= i < n && ws[i].activity != WindowActivity::Quiet {
                if i < n - 1 {
                    assert(before.contains(i));
                    let a = choose|a: int| 0 <= a < before.len() && before[a] == i;
                    assert(ids[a] == i);
                } else {
                    assert(ids[ids.len() - 1] == i);
                }
            }
        }
        ids
    }
}

/// The topic bar names the window in front, tells the time, and lists the numbers of
/// the windows where something has happened; it is filled up with spaces to its
/// width.
pub proof fn the_topic_names_the_window_in_front(v: AppView, ts: Seq<char>, width: u16)
    ensures
        exists|ids: Seq<int>|
            {
                let head = " irssi-tg | "@ + name_in_front(v) + " | "@ + ts;
                let text = if ids.len() == 0 {
                    head
                } else {
                    head + (" Act: "@ + join_of(
                        ids.map_values(|i: int| decimal_of((i + 2) as nat)),
                        ","@,
                    ))
                };
                &&& #[trigger] are_busy(v.windows, ids)
                &&& v.topic_bar(ts, width) == bar_text(
                    text + Seq::new(
                        if width > text.len() {
                            (width - text.len()) as nat
                        } else {
                            0
                        },
                        |i: int| ' ',
                    ),
                    v.theme.bar_fg,
                    v.theme,
                    true,
                )
            },
{
    let ids = lemma_busy(v.windows, v.windows.len() as int);
    assert(are_busy(v.windows, ids));
    let head = " irssi-tg | "@ + name_in_front(v) + " | "@ + ts;
    let text = if ids.len() == 0 {
        head
    } else {
        head + (" Act: "@ + join_of(ids.map_values(|i: int| decimal_of((i + 2) as nat)), ","@))
    };
    assert(busy_numbers(v.windows) == ids.map_values(|i: int| decimal_of((i + 2) as nat)));
    assert(busy_numbers(v.windows).len() == ids.len());
    let note = busy_note(v.windows);
    if ids.len() == 0 {
        assert(head + note =~= head);
    }
    let fill = Seq::new(
        if width > text.len() {
            (width - text.len()) as nat
        } else {
            0
        },
        |i: int| ' ',
    );
    assert(head + note == text);
    assert(v.topic_bar(ts, width).text =~= text + fill);
}

// ── The window bar ───────────────────────────────────────────────────────────

/// The label of window `i`: its number and name, a star where it is in front, a plus
/// where something has happened in it, and how many messages are unread.
pub open spec fn label_of(v: AppView, i: int) -> SpanView {
    let w = v.windows[i];
    let number = "["@ + decimal_of((i + 2) as nat);
    let unread = if w.unread > 0 {
        "("@ + decimal_of(w.unread as nat) + ")"@
    } else {
        ""@
    };
    if v.active == Some(i as usize) {
        bar_text(number + "*"@ + w.name + ""@ + "] "@, v.theme.bar_fg, v.theme, true)
    } else {
        match w.activity {
            WindowActivity::Quiet => bar_text(
                number + ""@ + w.name + unread + "] "@,
                v.theme.timestamp,
                v.theme,
                false,
            ),
            WindowActivity::Text => bar_text(
                number + "+"@ + w.name + unread + "] "@,
                v.theme.bar_fg,
                v.theme,
                false,
            ),
            WindowActivity::Highlight => bar_text(
                number + "+"@ + w.name + unread + "] "@,
                v.theme.highlight_bg,
                v.theme,
                true,
            ),
        }
    }
}

/// The labels of all windows, that of the status window first.
pub open spec fn labels(v: AppView) -> Seq<SpanView> {
    seq![
        if v.active is None {
            bar_text("[1*(status)] "@, v.theme.bar_fg, v.theme, true)
        } else {
            bar_text("[1(status)] "@, v.theme.timestamp, v.theme, false)
        },
    ] + Seq::new(v.windows.len(), |i: int| label_of(v, i))
}

/// How many bytes pieces of text have together.
pub open spec fn bytes_of(spans: Seq<SpanView>) -> nat
    decreases spans.len(),
{
    if spans.len() == 0 {
        0
    } else {
        bytes_of(spans.drop_last()) + encode_utf8(spans.last().text).len()
    }
}

proof fn lemma_bytes_of(tabs: Seq<SpanView>, a: int, b: int)
    requires
        0 <= a <= b <= tabs.len(),
    ensures
        tabs_len(tabs, a, b) == bytes_of(tabs.subrange(a, b)),
    decreases b - a,
{
    if a < b {
        lemma_bytes_of(tabs, a, b - 1);
        assert(tabs.subrange(a, b).drop_last() =~= tabs.subrange(a, b - 1));
        assert(tabs.subrange(a, b).last() == tabs[b - 1]);
    } else {
        assert(tabs.subrange(a, b).len() == 0);
    }
}

proof fn lemma_labels(v: AppView)
    ensures
        v.tabs() == labels(v),
{
    assert forall|i: int| 0 <= i < v.windows.len() implies v.window_tab(i) == label_of(v, i) by {
        assert(v.window_tab(i).text =~= label_of(v, i).text);
    }
    assert(v.tabs() =~= labels(v));
}

proof fn lemma_first_grown_right(tabs: Seq<SpanView>, a: int, b: int, width: nat, k: int)
    requires
        0 <= a < b <= k < grown_right(tabs, a, b, width),
        b <= tabs.len(),
    ensures
        tabs_len(tabs, a, k + 1) <= width,
    decreases tabs.len() - b,
{
    if b < tabs.len() && tabs_len(tabs, a, b + 1) <= width && b < k {
        lemma_first_grown_right(tabs, a, b + 1, width, k);
    }
}

/// The window bar shows the labels of the windows in a row, from some label to some
/// other, in their order; that of the window in front is among them. As many as fit
/// are shown behind that one, and then as many as fit before it. A mark on either
/// side tells of labels that are left out, and spaces fill up the row.
pub proof fn the_bar_shows_the_labels(v: AppView, width: u16)
    requires
        v.active_exists(),
    ensures
        ({
            let s = v.bar_start(width);
            let e = v.bar_end(width);
            let all = labels(v);
            let f: int = match v.active {
                Some(i) => i + 1,
                None => 0,
            };
            let none = Seq::<SpanView>::empty();
            let mark = v.theme.highlight_bg;
            let shown = (if s > 0 {
                seq![bar_text("<"@, mark, v.theme, true)]
            } else {
                none
            }) + all.subrange(s, e) + (if e < all.len() {
                seq![bar_text(">"@, mark, v.theme, true)]
            } else {
                none
            });
            let marks: nat = (if s > 0 {
                1nat
            } else {
                0
            }) + (if e < all.len() {
                1nat
            } else {
                0
            });
            let used = bytes_of(all.subrange(s, e)) + marks;
            &&& 0 <= s <= f < e <= all.len()
            &&& e > f + 1 ==> bytes_of(all.subrange(f, e)) <= width
            &&& e < all.len() ==> bytes_of(all.subrange(f, e + 1)) > width
            &&& s < f ==> bytes_of(all.subrange(s, e)) <= width
            &&& s > 0 ==> bytes_of(all.subrange(s - 1, e)) > width
            &&& v.window_bar(width) == if width > used {
                shown + seq![
                    bar_text(
                        Seq::new((width - used) as nat, |i: int| ' '),
                        v.theme.bar_fg,
                        v.theme,
                        false,
                    ),
                ]
            } else {
                shown
            }
        }),
{
    lemma_labels(v);
    front_tab_is_shown(v, width);
    let all = labels(v);
    let s = v.bar_start(width);
    let e = v.bar_end(width);
    let f = v.front_tab();
    lemma_bytes_of(all, s, e);
    lemma_bytes_of(all, f, e);
    if e > f + 1 {
        lemma_first_grown_right(all, f, f + 1, width as nat, e - 1);
    }
    if e < all.len() {
        lemma_grown_stop(all, f, f + 1, width as nat);
        lemma_bytes_of(all, f, e + 1);
    }
    if s > 0 {
        lemma_bytes_of(all, s - 1, e);
    }
    let gap = Seq::new((width - v.bar_used(width)) as nat, |i: int| ' ');
    if width > v.bar_used(width) {
        assert(spaces_of(width - v.bar_used(width)) =~= gap);
    }
    let none = Seq::<SpanView>::empty();
    assert(forall|x: Seq<SpanView>| #[trigger] (x + none) =~= x);
}

proof fn lemma_grown_stop(tabs: Seq<SpanView>, a: int, b: int, width: nat)
    requires
        0 <= a < b <= tabs.len(),
        grown_right(tabs, a, b, width) < tabs.len(),
    ensures
        tabs_len(tabs, a, grown_right(tabs, a, b, width) + 1) > width,
    decreases tabs.len() - b,
{
    if b < tabs.len() && tabs_len(tabs, a, b + 1) <= width {
        lemma_grown_stop(tabs, a, b + 1, width);
    }
}

// ── The input line ───────────────────────────────────────────────────────────

/// The names that a completion in progress can still go on to, the first three of
/// them in their order.
pub open spec fn other_names(t: TabView) -> Seq<Seq<char>> {
    let others = t.candidates.take(t.idx as int) + t.candidates.skip(t.idx + 1);
    if others.len() > 3 {
        others.take(3)
    } else {
        others
    }
}

/// The input line begins with the name of the window in front, and goes on with the
/// end of what was typed, as much as there is room for; a mark tells where its
/// beginning is cut off. Other candidates of a completion in progress stand behind
/// it, where there is a choice and room for them.
pub proof fn the_input_line_shows_what_is_typed(v: AppView, x: u16, width: u16)
    requires
        v.tab_wf(),
    ensures
        ({
            let prompt = "["@ + name_in_front(v) + "] "@;
            let room: int = if width > display_width(prompt) {
                width - display_width(prompt)
            } else {
                0
            };
            let cut: int = if v.input.len() > room {
                v.input.len() - room
            } else {
                0
            };
            let hint = v.tab matches Some(t) && t.candidates.len() > 1 && display_width(prompt)
                + display_width(v.input) + 6 < width;
            let spans = seq![bold_text(prompt, v.theme.bar_fg)] + (if cut > 0 {
                seq![plain_text("‹"@, v.theme.highlight_bg)]
            } else {
                Seq::empty()
            }) + seq![plain_text(v.input.skip(cut), v.theme.text_fg)];
            v.input_line(x, width).spans == if hint {
                spans + seq![
                    plain_text(
                        "  ["@ + join_of(other_names(v.tab->0), " | "@) + "]"@,
                        v.theme.timestamp,
                    ),
                ]
            } else {
                spans
            }
        }),
{
    if let Some(t) = v.tab {
        assert(t.candidates.remove(t.idx as int) =~= t.candidates.take(t.idx as int)
            + t.candidates.skip(t.idx + 1));
        assert(other_candidates(t) =~= other_names(t));
    }
    let none = Seq::<SpanView>::empty();
    assert(forall|x: Seq<SpanView>| #[trigger] (x + none) =~= x);
}

/// The cursor stands behind what is shown of the input, or on the last column of the
/// line where that is further left, as far as columns can be counted.
pub proof fn the_cursor_stands_behind_the_input(v: AppView, x: u16, width: u16)
    requires
        width > 0,
        x + width <= 0x1_0000,
    ensures
        ({
            let prompt = "["@ + name_in_front(v) + "] "@;
            let room: int = if width > display_width(prompt) {
                width - display_width(prompt)
            } else {
                0
            };
            let cut: int = if v.input.len() > room {
                v.input.len() - room
            } else {
                0
            };
            let behind = x + display_width(prompt) + (if cut > 0 {
                1int
            } else {
                0
            }) + display_width(v.input.skip(cut));
            behind < 0x1_0000 ==> v.input_line(x, width).cursor == if behind < x + width - 1 {
                behind
            } else {
                x + width - 1
            }
        }),
{
}

// ── The whole screen ─────────────────────────────────────────────────────────

/// Each row of the screen shows its own part, at the size of that row.
pub proof fn the_screen_has_its_parts(v: AppView, rows: Rows, ts: Seq<char>)
    ensures
        ({
            let screen = v.screen(rows, ts);
            &&& screen.rows == rows
            &&& screen.topic == v.topic_bar(ts, rows.topic.width)
            &&& screen.pane == v.pane(rows.pane.width, rows.pane.height)
            &&& screen.bar == v.window_bar(rows.bar.width)
            &&& screen.input == v.input_line(rows.input.x, rows.input.width)
        }),
{
}

/// Where a screen has four rows or more, the topic is its first row, the windows its
/// last but one, the input its last, and the pane all between; each is as wide as the
/// screen.
pub proof fn the_screen_is_divided(rows: Rows, area: Area)
    requires
        screen_rows(rows, area),
        area.height >= 4,
        area.y + area.height <= u16::MAX,
    ensures
        rows.topic == (Area { height: 1, ..area }),
        rows.pane == (Area {
            y: (area.y + 1) as u16,
            height: (area.height - 3) as u16,
            ..area
        }),
        rows.bar == (Area { y: (area.y + area.height - 2) as u16, height: 1, ..area }),
        rows.input == (Area { y: (area.y + area.height - 1) as u16, height: 1, ..area }),
{
}

} // verus!
