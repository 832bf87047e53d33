//! The scrollback on the screen: which lines are shown and how.
use std::collections::VecDeque;
use vstd::prelude::*;
use crate::app::{lines_view, App, AppView, ChatLine, LineView};
use crate::style::{
    bold_span, colored, colored_span, columns, display_width, emphasized, spans_view, Span,
    SpanView,
};
use crate::theme::{nick_color, nick_color_of, Theme, ThemeView};

verus! {

/// The rows of the scrollback, and whether long rows are wrapped.
#[derive(Debug)]
pub struct Pane {
    pub rows: Vec<Vec<Span>>,
    pub wrap: bool,
}

/// The model of the scrollback on the screen.
#[verifier::ext_equal]
pub struct PaneView {
    pub rows: Seq<Seq<SpanView>>,
    pub wrap: bool,
}

/// The models of rows.
pub open spec fn rows_view(s: Seq<Vec<Span>>) -> Seq<Seq<SpanView>> {
    Seq::new(s.len(), |i: int| spans_view(s[i]@))
}

impl View for Pane {
    type V = PaneView;

    open spec fn view(&self) -> PaneView {
        PaneView { rows: rows_view(self.rows@), wrap: self.wrap }
    }
}

// ── Which lines are shown ────────────────────────────────────────────────────

/// A line without its colours.
pub open spec fn plain(l: LineView) -> Seq<char> {
    l.ts + " "@ + l.prefix + " "@ + l.text
}

/// How many rows a line of `columns` columns takes up when it is wrapped.
pub open spec fn rows_for(columns: usize, width: u16) -> nat {
    let w: nat = if width == 0 {
        1
    } else {
        width as nat
    };
    if columns == 0 {
        1
    } else {
        (columns - 1) as nat / w + 1
    }
}

/// How many columns each of the lines takes up.
pub open spec fn columns_of(lines: Seq<LineView>) -> Seq<usize> {
    lines.map_values(|l: LineView| display_width(plain(l)))
}

/// How many rows the lines from line `k` on take up, by their columns.
pub open spec fn tail_rows(cols: Seq<usize>, k: int, width: u16) -> nat
    decreases cols.len() - k,
{
    if k < 0 || k >= cols.len() {
        0
    } else {
        rows_for(cols[k], width) + tail_rows(cols, k + 1, width)
    }
}

/// The first line, going back from line `k`, from which on the lines fit.
pub open spec fn first_fit(cols: Seq<usize>, width: u16, height: u16, k: int) -> int
    decreases k,
{
    if k <= 0 {
        0
    } else if tail_rows(cols, k - 1, width) > height {
        k
    } else {
        first_fit(cols, width, height, k - 1)
    }
}

/// The first line that is shown, by the columns of the lines.
pub open spec fn shown_from(cols: Seq<usize>, width: u16, height: u16) -> int {
    first_fit(cols, width, height, cols.len() as int)
}

proof fn lemma_tail_grows(cols: Seq<usize>, j: int, k: int, width: u16)
    requires
        0 <= j <= k <= cols.len(),
    ensures
        tail_rows(cols, j, width) >= tail_rows(cols, k, width) + (k - j),
    decreases k - j,
{
    if j < k {
        lemma_tail_grows(cols, j + 1, k, width);
    }
}

proof fn lemma_first_fit(cols: Seq<usize>, width: u16, height: u16, k: int)
    requires
        0 <= k <= cols.len(),
        tail_rows(cols, k, width) <= height,
    ensures
        ({
            let s = first_fit(cols, width, height, k);
            &&& 0 <= s <= k
            &&& tail_rows(cols, s, width) <= height
            &&& s > 0 ==> tail_rows(cols, s - 1, width) > height
        }),
    decreases k,
{
    if k > 0 && tail_rows(cols, k - 1, width) <= height {
        lemma_first_fit(cols, width, height, k - 1);
    }
}

/// The scrollback shows the newest lines, as many as fit: those shown fit, and no
/// more would.
pub proof fn newest_lines_are_shown(cols: Seq<usize>, width: u16, height: u16, k: int)
    requires
        0 <= k <= cols.len(),
    ensures
        0 <= shown_from(cols, width, height) <= cols.len(),
        tail_rows(cols, k, width) <= height <==> shown_from(cols, width, height) <= k,
{
    assert(tail_rows(cols, cols.len() as int, width) == 0);
    lemma_first_fit(cols, width, height, cols.len() as int);
    let s = shown_from(cols, width, height);
    if s <= k {
        lemma_tail_grows(cols, s, k, width);
    } else {
        lemma_tail_grows(cols, k, s - 1, width);
    }
}

// ── How they are shown ───────────────────────────────────────────────────────

/// A line with its colours.
pub open spec fn line_spans(l: LineView, theme: ThemeView) -> Seq<SpanView> {
    let ts = colored(l.ts + " "@, theme.timestamp);
    if l.is_sys {
        seq![
            ts,
            emphasized(l.prefix + " "@, theme.sys_msg),
            colored(l.text, theme.sys_msg),
        ]
    } else if l.is_highlight {
        seq![ts, emphasized(l.prefix + " "@ + l.text, theme.highlight_bg)]
    } else {
        let color = match l.nick {
            Some(nick) => nick_color_of(nick, theme),
            None => theme.bar_fg,
        };
        seq![ts, emphasized(l.prefix + " "@, color), colored(l.text, theme.text_fg)]
    }
}

/// Empty rows above the lines from `start` on, so that the last line is at the
/// bottom.
pub open spec fn anchored(
    lines: Seq<LineView>,
    start: int,
    width: u16,
    height: u16,
    theme: ThemeView,
) -> Seq<Seq<SpanView>> {
    Seq::new(
        (height - tail_rows(columns_of(lines), start, width)) as nat,
        |i: int| Seq::<SpanView>::empty(),
    ) + lines.skip(start).map_values(|l: LineView| line_spans(l, theme))
}

impl AppView {
    /// The lines of the window in front.
    pub open spec fn front_lines(self) -> Seq<LineView> {
        match self.active {
            Some(i) => self.windows[i as int].lines,
            None => self.status_lines,
        }
    }

    /// The scrollback on the screen.
    pub open spec fn pane(self, width: u16, height: u16) -> PaneView {
        let lines = self.front_lines();
        if lines.len() == 0 {
            PaneView {
                rows: seq![
                    seq![colored("No messages. /help for commands."@, self.theme.timestamp)],
                ],
                wrap: false,
            }
        } else {
            PaneView {
                rows: anchored(
                    lines,
                    shown_from(columns_of(lines), width, height),
                    width,
                    height,
                    self.theme,
                ),
                wrap: true,
            }
        }
    }
}

/// The rows above and of the lines shown fill the scrollback exactly.
pub proof fn scrollback_is_anchored(v: AppView, width: u16, height: u16)
    requires
        v.front_lines().len() > 0,
    ensures
        ({
            let lines = v.front_lines();
            let start = shown_from(columns_of(lines), width, height);
            let blank = v.pane(width, height).rows.len() - (lines.len() - start);
            &&& blank >= 0
            &&& blank + tail_rows(columns_of(lines), start, width) == height
            &&& forall|i: int|
                0 <= i < blank ==> (#[trigger] v.pane(width, height).rows[i]).len() == 0
            &&& start < lines.len() ==> v.pane(width, height).rows.last() == line_spans(
                lines.last(),
                v.theme,
            )
        }),
{
    let lines = v.front_lines();
    let start = shown_from(columns_of(lines), width, height);
    newest_lines_are_shown(columns_of(lines), width, height, lines.len() as int);
    newest_lines_are_shown(columns_of(lines), width, height, start);
}

// ── Computing it ─────────────────────────────────────────────────────────────

/// Three texts with spaces between them.
fn spaced(a: &str, b: &str, c: &str) -> (r: String)
    ensures
        r@ == a@ + " "@ + b@ + " "@ + c@,
{
    let mut s = a.to_owned();
    s.append(" ");
    s.append(b);
    s.append(" ");
    s.append(c);
    s
}

/// A text with a space behind it.
fn with_space(a: &str) -> (r: String)
    ensures
        r@ == a@ + " "@,
{
    let mut s = a.to_owned();
    s.append(" ");
    s
}

/// A line with its colours.
pub fn style_line(l: &ChatLine, theme: &Theme) -> (r: Vec<Span>)
    ensures
        spans_view(r@) == line_spans(l@, theme@),
{
    let mut out: Vec<Span> = Vec::new();
    out.push(colored_span(with_space(l.ts.as_str()), theme.timestamp));
    if l.is_sys {
        out.push(bold_span(with_space(l.prefix.as_str()), theme.sys_msg));
        out.push(colored_span(l.text.clone(), theme.sys_msg));
    } else if l.is_highlight {
        let mut s = with_space(l.prefix.as_str());
        s.append(l.text.as_str());
        out.push(bold_span(s, theme.highlight_bg));
    } else {
        let color = match &l.nick {
            Some(nick) => nick_color(nick.as_str(), theme),
            None => theme.bar_fg,
        };
        out.push(bold_span(with_space(l.prefix.as_str()), color));
        out.push(colored_span(l.text.clone(), theme.text_fg));
    }
    assert(spans_view(out@) =~= line_spans(l@, theme@));
    out
}

/// The first line that is shown of lines that take up these columns, and how many
/// rows are left above it.
pub fn first_shown(cols: &Vec<usize>, width: u16, height: u16) -> (r: (usize, usize))
    ensures
        r.0 == first_fit(cols@, width, height, cols@.len() as int),
        r.0 <= cols@.len(),
        r.1 == height - tail_rows(cols@, r.0 as int, width),
{
    let w: usize = if width == 0 { 1 } else { width as usize };
    let mut room: usize = height as usize;
    let mut k: usize = cols.len();
    assert(tail_rows(cols@, k as int, width) == 0);
    while k > 0
        invariant
            k <= cols@.len(),
            w == if width == 0 { 1 } else { width as usize },
            room == height - tail_rows(cols@, k as int, width),
            shown_from(cols@, width, height) == first_fit(cols@, width, height, k as int),
        decreases k,
    {
        let n = cols[k - 1];
        let over: usize = if n == 0 { 0 } else { (n - 1) / w };
        assert(rows_for(n, width) == over + 1);
        if over >= room {
            return (k, room);
        }
        room = room - (over + 1);
        k = k - 1;
    }
    (k, room)
}

/// How many columns each of the lines takes up.
fn measure(lines: &VecDeque<ChatLine>) -> (cols: Vec<usize>)
    ensures
        cols@ == columns_of(lines_view(lines@)),
{
    let ghost all = columns_of(lines_view(lines@));
    let mut cols: Vec<usize> = Vec::new();
    let mut i: usize = 0;
    while i < lines.len()
        invariant
            i <= lines@.len(),
            all == columns_of(lines_view(lines@)),
            cols@ =~= all.take(i as int),
        decreases lines.len() - i,
    {
        let l = &lines[i];
        assert(lines_view(lines@)[i as int] == l@);
        let text = spaced(l.ts.as_str(), l.prefix.as_str(), l.text.as_str());
        assert(text@ =~= plain(l@));
        cols.push(columns(text.as_str()));
        i = i + 1;
    }
    assert(all.take(i as int) =~= all);
    cols
}

/// Lines as rows, below empty ones.
fn make_rows(lines: &VecDeque<ChatLine>, start: usize, blank: usize, theme: &Theme) -> (r: Vec<
    Vec<Span>,
>)
    requires
        start <= lines@.len(),
    ensures
        rows_view(r@) == Seq::new(blank as nat, |i: int| Seq::<SpanView>::empty()) + lines_view(
            lines@,
        ).skip(start as int).map_values(|l: LineView| line_spans(l, theme@)),
{
    let ghost above = Seq::new(blank as nat, |i: int| Seq::<SpanView>::empty());
    let ghost below = lines_view(lines@).skip(start as int).map_values(
        |l: LineView| line_spans(l, theme@),
    );
    let mut out: Vec<Vec<Span>> = Vec::new();
    let mut i: usize = 0;
    while i < blank
        invariant
            i <= blank,
            out@.len() == i,
            above == Seq::new(blank as nat, |i: int| Seq::<SpanView>::empty()),
            rows_view(out@) =~= above.take(i as int),
        decreases blank - i,
    {
        let row: Vec<Span> = Vec::new();
        let ghost before = rows_view(out@);
        assert(spans_view(row@) =~= Seq::empty());
        out.push(row);
        assert(rows_view(out@) =~= before.push(Seq::empty()));
        i = i + 1;
    }
    assert(above.take(blank as int) =~= above);
    let mut k: usize = start;
    assert(below.take(0) =~= Seq::empty());
    assert(rows_view(out@) =~= above + below.take(0));
    while k < lines.len()
        invariant
            start <= k <= lines@.len(),
            below == lines_view(lines@).skip(start as int).map_values(
                |l: LineView| line_spans(l, theme@),
            ),
            rows_view(out@) == above + below.take(k - start),
        decreases lines.len() - k,
    {
        let ghost before = rows_view(out@);
        let row = style_line(&lines[k], theme);
        assert(below[k - start] == spans_view(row@));
        out.push(row);
        assert(rows_view(out@) =~= before.push(spans_view(row@)));
        assert(rows_view(out@) =~= above + below.take(k + 1 - start));
        k = k + 1;
    }
    assert(below.take(k - start) =~= below);
    out
}

/// The scrollback on the screen.
pub fn draw_scrollback(app: &App, width: u16, height: u16) -> (p: Pane)
    requires
        app.wf(),
    ensures
        p@ == app@.pane(width, height),
{
    let lines = match app.active {
        Some(i) => {
            assert(app@.windows[i as int] == app.windows@[i as int]@);
            &app.windows[i].lines
        },
        None => &app.status_lines,
    };
    if lines.len() == 0 {
        let mut row: Vec<Span> = Vec::new();
        row.push(colored_span("No messages. /help for commands.".to_owned(), app.theme.timestamp));
        let mut rows: Vec<Vec<Span>> = Vec::new();
        rows.push(row);
        let p = Pane { rows, wrap: false };
        assert(spans_view(row@) =~= app@.pane(width, height).rows[0]);
        assert(p@.rows =~= app@.pane(width, height).rows);
        assert(p@ =~= app@.pane(width, height));
        return p;
    }
    let cols = measure(lines);
    let (start, blank) = first_shown(&cols, width, height);
    let rows = make_rows(lines, start, blank, &app.theme);
    let p = Pane { rows, wrap: true };
    assert(p@ =~= app@.pane(width, height));
    p
}

} // verus!
