//! The bars: the topic above, and the list of windows below.
use vstd::prelude::*;
use vstd::utf8::is_ascii_chars_encode_utf8;
use crate::app::{windows_view, App, AppView, Window, WindowActivity, WindowView};
use crate::style::{bar_span, on_bar, spans_view, Span, SpanView};
use crate::text::{
    byte_len, byte_len_of, decimal, decimal_of, join, join_of, pad_right, pad_right_of, spaces,
    spaces_of, texts,
};

verus! {

// ── The topic bar ────────────────────────────────────────────────────────────

/// The numbers of the windows where something has happened.
pub open spec fn busy_numbers(ws: Seq<WindowView>) -> Seq<Seq<char>> {
    Seq::new(ws.len(), |i: int| i).filter(
        |i: int| ws[i].activity != WindowActivity::Quiet,
    ).map_values(|i: int| decimal_of((i + 2) as nat))
}

/// What the topic bar tells of them.
pub open spec fn busy_note(ws: Seq<WindowView>) -> Seq<char> {
    if busy_numbers(ws).len() == 0 {
        Seq::empty()
    } else {
        " Act: "@ + join_of(busy_numbers(ws), ","@)
    }
}

impl AppView {
    /// The topic bar at the time `ts`.
    pub open spec fn topic_bar(self, ts: Seq<char>, width: u16) -> SpanView {
        on_bar(
            pad_right_of(
                " irssi-tg | "@ + self.active_name() + " | "@ + ts + busy_note(self.windows),
                width as nat,
            ),
            self.theme.bar_fg,
            self.theme.bar_bg,
            true,
        )
    }
}

/// The numbers of the windows where something has happened.
fn list_busy(ws: &Vec<Window>) -> (out: Vec<String>)
    ensures
        texts(out@) == busy_numbers(windows_view(ws@)),
{
    let ghost all = windows_view(ws@);
    let ghost ids = Seq::new(all.len(), |i: int| i);
    let ghost busy = |i: int| all[i].activity != WindowActivity::Quiet;
    let ghost show = |i: int| decimal_of((i + 2) as nat);
    let mut out: Vec<String> = Vec::new();
    let mut i: usize = 0;
    proof {
        reveal(Seq::filter);
        assert(texts(out@) =~= ids.take(0).filter(busy).map_values(show));
    }
    while i < ws.len()
        invariant
            i <= ws@.len(),
            all == windows_view(ws@),
            ids == Seq::new(all.len(), |i: int| i),
            busy == (|i: int| all[i].activity != WindowActivity::Quiet),
            show == (|i: int| decimal_of((i + 2) as nat)),
            texts(out@) == ids.take(i as int).filter(busy).map_values(show),
        decreases ws.len() - i,
    {
        let ghost before = texts(out@);
        proof {
            reveal(Seq::filter);
            assert(ids.take(i + 1).drop_last() =~= ids.take(i as int));
            assert(ids.take(i + 1).last() == i);
            assert(all[i as int] == ws@[i as int]@);
        }
        if ws[i].activity != WindowActivity::Quiet {
            out.push(decimal(i as u128 + 2));
            assert(texts(out@) =~= before.push(show(i as int)));
            assert(ids.take(i + 1).filter(busy) == ids.take(i as int).filter(busy).push(i as int));
            assert(ids.take(i + 1).filter(busy).map_values(show) =~= ids.take(i as int).filter(
                busy,
            ).map_values(show).push(show(i as int)));
        } else {
            assert(ids.take(i + 1).filter(busy) == ids.take(i as int).filter(busy));
        }
        i = i + 1;
    }
    assert(ids.take(i as int) =~= ids);
    out
}

/// The topic bar at the time `ts`.
pub fn draw_topic_bar(app: &App, ts: &str, width: u16) -> (r: Span)
    requires
        app.wf(),
    ensures
        r@ == app@.topic_bar(ts@, width),
{
    let mut s = " irssi-tg | ".to_owned();
    s.append(app.active_name());
    s.append(" | ");
    s.append(ts);
    let busy = list_busy(&app.windows);
    let ghost head = s@;
    if busy.len() > 0 {
        let list = join(&busy, ",");
        s.append(" Act: ");
        s.append(list.as_str());
    }
    assert(s@ =~= head + busy_note(app@.windows));
    bar_span(pad_right(s.as_str(), width as usize), app.theme.bar_fg, app.theme.bar_bg, true)
}

// ── The labels of the windows ────────────────────────────────────────────────

impl AppView {
    /// The label of the status window.
    pub open spec fn status_tab(self) -> SpanView {
        if self.active is None {
            on_bar("[1*(status)] "@, self.theme.bar_fg, self.theme.bar_bg, true)
        } else {
            on_bar("[1(status)] "@, self.theme.timestamp, self.theme.bar_bg, false)
        }
    }

    /// The text of the label of window `i`.
    pub open spec fn tab_text(self, i: int) -> Seq<char> {
        let w = self.windows[i];
        let front = self.active == Some(i as usize);
        let marker = if front {
            "*"@
        } else if w.activity != WindowActivity::Quiet {
            "+"@
        } else {
            ""@
        };
        let unread = if w.unread > 0 && !front {
            "("@ + decimal_of(w.unread as nat) + ")"@
        } else {
            ""@
        };
        "["@ + decimal_of((i + 2) as nat) + marker + w.name + unread + "] "@
    }

    /// The label of window `i`.
    pub open spec fn window_tab(self, i: int) -> SpanView {
        let t = self.theme;
        if self.active == Some(i as usize) {
            on_bar(self.tab_text(i), t.bar_fg, t.bar_bg, true)
        } else {
            match self.windows[i].activity {
                WindowActivity::Highlight => on_bar(
                    self.tab_text(i),
                    t.highlight_bg,
                    t.bar_bg,
                    true,
                ),
                WindowActivity::Text => on_bar(self.tab_text(i), t.bar_fg, t.bar_bg, false),
                WindowActivity::Quiet => on_bar(self.tab_text(i), t.timestamp, t.bar_bg, false),
            }
        }
    }

    /// The labels of all windows, that of the status window first.
    pub open spec fn tabs(self) -> Seq<SpanView> {
        seq![self.status_tab()] + Seq::new(self.windows.len(), |i: int| self.window_tab(i))
    }

    /// The index of the label of the window in front.
    pub open spec fn front_tab(self) -> int {
        match self.active {
            Some(i) => i + 1,
            None => 0,
        }
    }
}

// ── Which of them fit ────────────────────────────────────────────────────────

/// The length of the labels from `a` up to `b`, in bytes.
pub open spec fn tabs_len(tabs: Seq<SpanView>, a: int, b: int) -> nat
    decreases b - a,
{
    if a >= b {
        0
    } else {
        tabs_len(tabs, a, b - 1) + byte_len_of(tabs[b - 1].text)
    }
}

/// The end of the labels shown, when those from `a` to `b` are, and more are taken
/// in on the right as long as they fit.
pub open spec fn grown_right(tabs: Seq<SpanView>, a: int, b: int, width: nat) -> int
    decreases tabs.len() - b,
{
    if b < tabs.len() && tabs_len(tabs, a, b + 1) <= width {
        grown_right(tabs, a, b + 1, width)
    } else {
        b
    }
}

/// The start of the labels shown, when those from `a` to `b` are, and more are
/// taken in on the left as long as they fit.
pub open spec fn grown_left(tabs: Seq<SpanView>, a: int, b: int, width: nat) -> int
    decreases a,
{
    if a > 0 && tabs_len(tabs, a - 1, b) <= width {
        grown_left(tabs, a - 1, b, width)
    } else {
        a
    }
}

impl AppView {
    /// The end of the labels shown.
    pub open spec fn bar_end(self, width: u16) -> int {
        grown_right(self.tabs(), self.front_tab(), self.front_tab() + 1, width as nat)
    }

    /// The start of the labels shown.
    pub open spec fn bar_start(self, width: u16) -> int {
        grown_left(self.tabs(), self.front_tab(), self.bar_end(width), width as nat)
    }

    /// The mark of labels that are not shown.
    pub open spec fn bar_mark(self, text: Seq<char>) -> SpanView {
        on_bar(text, self.theme.highlight_bg, self.theme.bar_bg, true)
    }

    /// How many bytes the labels shown and the marks take up.
    pub open spec fn bar_used(self, width: u16) -> nat {
        let s = self.bar_start(width);
        let e = self.bar_end(width);
        tabs_len(self.tabs(), s, e) + (if s > 0 {
            1nat
        } else {
            0
        }) + (if e < self.tabs().len() {
            1nat
        } else {
            0
        })
    }

    /// The window bar.
    pub open spec fn window_bar(self, width: u16) -> Seq<SpanView> {
        let s = self.bar_start(width);
        let e = self.bar_end(width);
        let left = if s > 0 {
            seq![self.bar_mark("<"@)]
        } else {
            Seq::empty()
        };
        let right = if e < self.tabs().len() {
            seq![self.bar_mark(">"@)]
        } else {
            Seq::empty()
        };
        let rest = if width > self.bar_used(width) {
            seq![
                on_bar(
                    spaces_of(width - self.bar_used(width)),
                    self.theme.bar_fg,
                    self.theme.bar_bg,
                    false,
                ),
            ]
        } else {
            Seq::empty()
        };
        left + self.tabs().subrange(s, e) + right + rest
    }
}

proof fn lemma_len_left(tabs: Seq<SpanView>, a: int, b: int)
    requires
        0 <= a < b <= tabs.len(),
    ensures
        tabs_len(tabs, a, b) == byte_len_of(tabs[a].text) + tabs_len(tabs, a + 1, b),
    decreases b - a,
{
    if a + 1 < b {
        lemma_len_left(tabs, a, b - 1);
    } else {
        assert(tabs_len(tabs, a, a) == 0);
        assert(tabs_len(tabs, a + 1, b) == 0);
    }
}

proof fn lemma_grown_right(tabs: Seq<SpanView>, a: int, b: int, width: nat)
    requires
        0 <= a < b <= tabs.len(),
    ensures
        ({
            let e = grown_right(tabs, a, b, width);
            &&& b <= e <= tabs.len()
            &&& e > b ==> tabs_len(tabs, a, e) <= width
            &&& e < tabs.len() ==> tabs_len(tabs, a, e + 1) > width
        }),
    decreases tabs.len() - b,
{
    if b < tabs.len() && tabs_len(tabs, a, b + 1) <= width {
        lemma_grown_right(tabs, a, b + 1, width);
    }
}

proof fn lemma_grown_left(tabs: Seq<SpanView>, a: int, b: int, width: nat)
    requires
        0 <= a < b <= tabs.len(),
    ensures
        ({
            let s = grown_left(tabs, a, b, width);
            &&& 0 <= s <= a
            &&& s < a ==> tabs_len(tabs, s, b) <= width
            &&& s > 0 ==> tabs_len(tabs, s - 1, b) > width
        }),
    decreases a,
{
    if a > 0 && tabs_len(tabs, a - 1, b) <= width {
        lemma_grown_left(tabs, a - 1, b, width);
    }
}

/// The label of the window in front is always among those shown; those shown are
/// as long as the bar at most, unless the label in front alone is longer; and
/// neither neighbour of those shown would fit as well.
pub proof fn front_tab_is_shown(v: AppView, width: u16)
    requires
        v.active_exists(),
    ensures
        ({
            let s = v.bar_start(width);
            let e = v.bar_end(width);
            let n = v.tabs().len();
            &&& 0 <= s <= v.front_tab() < e <= n
            &&& tabs_len(v.tabs(), s, e) <= width || e == s + 1
            &&& s > 0 ==> tabs_len(v.tabs(), s - 1, e) > width
            &&& e < n ==> tabs_len(v.tabs(), s, e + 1) > width
        }),
{
    let tabs = v.tabs();
    let f = v.front_tab();
    lemma_grown_right(tabs, f, f + 1, width as nat);
    let e = v.bar_end(width);
    lemma_grown_left(tabs, f, e, width as nat);
    let s = v.bar_start(width);
    if e < tabs.len() {
        lemma_longer(tabs, s, f, e + 1);
    }
}

proof fn lemma_longer(tabs: Seq<SpanView>, a: int, b: int, c: int)
    requires
        0 <= a <= b <= c <= tabs.len(),
    ensures
        tabs_len(tabs, a, c) >= tabs_len(tabs, b, c),
    decreases b - a,
{
    if a < b && b < c {
        lemma_len_left(tabs, a, c);
        lemma_longer(tabs, a + 1, b, c);
    }
}

proof fn lemma_len_concat(a: Seq<SpanView>, b: Seq<SpanView>, k: int)
    requires
        0 <= k <= b.len(),
    ensures
        tabs_len(a + b, 0, a.len() + k) == tabs_len(a, 0, a.len() as int) + tabs_len(b, 0, k),
    decreases k,
{
    if k > 0 {
        lemma_len_concat(a, b, k - 1);
    } else {
        lemma_len_same(a + b, a, 0, a.len() as int);
    }
}

proof fn lemma_len_same(x: Seq<SpanView>, y: Seq<SpanView>, shift: int, k: int)
    requires
        0 <= k <= y.len(),
        0 <= shift,
        shift + y.len() <= x.len(),
        forall|i: int| 0 <= i < y.len() ==> x[shift + i] == #[trigger] y[i],
    ensures
        tabs_len(x, shift, shift + k) == tabs_len(y, 0, k),
    decreases k,
{
    if k > 0 {
        lemma_len_same(x, y, shift, k - 1);
        assert(x[shift + (k - 1)] == y[k - 1]);
    }
}

proof fn lemma_len_one(s: SpanView)
    ensures
        tabs_len(seq![s], 0, 1) == byte_len_of(s.text),
{
    assert(tabs_len(seq![s], 0, 0) == 0);
}

/// The window bar fills its row to the last byte, or is just as long as the labels
/// shown and their marks where these are longer.
pub proof fn window_bar_fills_its_row(v: AppView, width: u16)
    requires
        v.active_exists(),
    ensures
        tabs_len(v.window_bar(width), 0, v.window_bar(width).len() as int) == if width
            > v.bar_used(width) {
            width as nat
        } else {
            v.bar_used(width)
        },
{
    front_tab_is_shown(v, width);
    let s = v.bar_start(width);
    let e = v.bar_end(width);
    let used = v.bar_used(width);
    let left = if s > 0 {
        seq![v.bar_mark("<"@)]
    } else {
        Seq::empty()
    };
    let mid = v.tabs().subrange(s, e);
    let right = if e < v.tabs().len() {
        seq![v.bar_mark(">"@)]
    } else {
        Seq::empty()
    };
    let gap = on_bar(spaces_of(width - used), v.theme.bar_fg, v.theme.bar_bg, false);
    let rest = if width > used {
        seq![gap]
    } else {
        Seq::empty()
    };
    reveal_strlit("<");
    reveal_strlit(">");
    is_ascii_chars_encode_utf8("<"@);
    is_ascii_chars_encode_utf8(">"@);
    is_ascii_chars_encode_utf8(gap.text);
    lemma_len_one(v.bar_mark("<"@));
    lemma_len_one(v.bar_mark(">"@));
    lemma_len_one(gap);
    lemma_len_same(v.tabs(), mid, s, mid.len() as int);
    lemma_len_concat(left, mid, mid.len() as int);
    lemma_len_concat(left + mid, right, right.len() as int);
    lemma_len_concat(left + mid + right, rest, rest.len() as int);
}

// ── Computing it ─────────────────────────────────────────────────────────────

/// The label of window `i`.
fn window_label(app: &App, i: usize) -> (r: Span)
    requires
        i < app@.windows.len(),
    ensures
        r@ == app@.window_tab(i as int),
{
    assert(app@.windows[i as int] == app.windows@[i as int]@);
    let w = &app.windows[i];
    let front = match app.active {
        Some(a) => a == i,
        None => false,
    };
    let mut s = "[".to_owned();
    let number = decimal(i as u128 + 2);
    s.append(number.as_str());
    s.append(
        if front {
            "*"
        } else if w.activity != WindowActivity::Quiet {
            "+"
        } else {
            ""
        },
    );
    s.append(w.name.as_str());
    let ghost head = s@;
    if w.unread > 0 && !front {
        let count = decimal(w.unread as u128);
        s.append("(");
        s.append(count.as_str());
        s.append(")");
    } else {
        s.append("");
    }
    s.append("] ");
    assert(s@ =~= app@.tab_text(i as int));
    let t = &app.theme;
    if front {
        bar_span(s, t.bar_fg, t.bar_bg, true)
    } else {
        match w.activity {
            WindowActivity::Highlight => bar_span(s, t.highlight_bg, t.bar_bg, true),
            WindowActivity::Text => bar_span(s, t.bar_fg, t.bar_bg, false),
            WindowActivity::Quiet => bar_span(s, t.timestamp, t.bar_bg, false),
        }
    }
}

/// The labels of all windows, that of the status window first.
fn all_labels(app: &App) -> (out: Vec<Span>)
    ensures
        spans_view(out@) == app@.tabs(),
{
    let mut out: Vec<Span> = Vec::new();
    if app.active.is_none() {
        out.push(
            bar_span("[1*(status)] ".to_owned(), app.theme.bar_fg, app.theme.bar_bg, true),
        );
    } else {
        out.push(
            bar_span("[1(status)] ".to_owned(), app.theme.timestamp, app.theme.bar_bg, false),
        );
    }
    let mut i: usize = 0;
    assert(spans_view(out@) =~= app@.tabs().take(1));
    while i < app.windows.len()
        invariant
            i <= app.windows@.len(),
            out@.len() == i + 1,
            spans_view(out@) == app@.tabs().take(i + 1),
        decreases app.windows.len() - i,
    {
        let ghost before = spans_view(out@);
        let label = window_label(app, i);
        out.push(label);
        assert(spans_view(out@) =~= before.push(label@));
        assert(app@.tabs()[i + 1] == app@.window_tab(i as int));
        assert(spans_view(out@) =~= app@.tabs().take(i + 2));
        i = i + 1;
    }
    assert(app@.tabs().take(i + 1) =~= app@.tabs());
    out
}

/// The range of the labels shown around label `front`, and its length.
fn fit_labels(labels: &Vec<Span>, front: usize, width: usize) -> (r: (usize, usize, usize))
    requires
        front < labels@.len(),
    ensures
        ({
            let tabs = spans_view(labels@);
            let e = grown_right(tabs, front as int, front + 1, width as nat);
            let s = grown_left(tabs, front as int, e, width as nat);
            r.0 == s && r.1 == e && r.2 == tabs_len(tabs, s, e)
        }),
        r.0 <= front < r.1 <= labels@.len(),
{
    let ghost tabs = spans_view(labels@);
    assert(front < labels.len());
    let mut end: usize = front + 1;
    let mut start: usize = front;
    let mut used: usize = byte_len(labels[front].text.as_str());
    assert(tabs_len(tabs, front as int, front as int) == 0);
    assert(tabs[front as int] == labels@[front as int]@);
    let ghost e = grown_right(tabs, front as int, front + 1, width as nat);
    while end < labels.len()
        invariant_except_break
            front < end <= labels@.len(),
            tabs == spans_view(labels@),
            used == tabs_len(tabs, front as int, end as int),
            e == grown_right(tabs, front as int, end as int, width as nat),
        ensures
            front < end <= labels@.len(),
            used == tabs_len(tabs, front as int, end as int),
            end == e,
        decreases labels.len() - end,
    {
        let next = byte_len(labels[end].text.as_str());
        assert(tabs[end as int] == labels@[end as int]@);
        assert(tabs_len(tabs, front as int, end + 1) == used + next);
        if used > width || next > width - used {
            break;
        }
        used = used + next;
        end = end + 1;
    }
    let ghost s = grown_left(tabs, front as int, e, width as nat);
    while start > 0
        invariant_except_break
            start <= front < end <= labels@.len(),
            tabs == spans_view(labels@),
            used == tabs_len(tabs, start as int, end as int),
            s == grown_left(tabs, start as int, end as int, width as nat),
        ensures
            start <= front,
            used == tabs_len(tabs, start as int, end as int),
            start == s,
        decreases start,
    {
        let prev = byte_len(labels[start - 1].text.as_str());
        assert(tabs[start - 1] == labels@[start - 1]@);
        proof {
            lemma_len_left(tabs, start - 1, end as int);
        }
        if used > width || prev > width - used {
            break;
        }
        used = used + prev;
        start = start - 1;
    }
    (start, end, used)
}

/// Adds the labels from `start` up to `end`.
fn copy_labels(out: &mut Vec<Span>, labels: &Vec<Span>, start: usize, end: usize)
    requires
        start <= end <= labels@.len(),
    ensures
        spans_view(final(out)@) == spans_view(old(out)@) + spans_view(labels@).subrange(
            start as int,
            end as int,
        ),
{
    let ghost first = spans_view(out@);
    let ghost tabs = spans_view(labels@);
    let mut i: usize = start;
    assert(first + tabs.subrange(start as int, start as int) =~= first);
    while i < end
        invariant
            start <= i <= end <= labels@.len(),
            tabs == spans_view(labels@),
            spans_view(out@) == first + tabs.subrange(start as int, i as int),
        decreases end - i,
    {
        let ghost before = spans_view(out@);
        let label = labels[i].clone();
        assert(tabs[i as int] == label@);
        out.push(label);
        assert(spans_view(out@) =~= before.push(label@));
        assert(spans_view(out@) =~= first + tabs.subrange(start as int, i + 1));
        i = i + 1;
    }
}

/// The window bar.
pub fn draw_window_bar(app: &App, width: u16) -> (out: Vec<Span>)
    requires
        app.wf(),
    ensures
        spans_view(out@) == app@.window_bar(width),
{
    let labels = all_labels(app);
    let front: usize = match app.active {
        Some(i) => i + 1,
        None => 0,
    };
    assert(labels@.len() == app@.tabs().len());
    let (start, end, used) = fit_labels(&labels, front, width as usize);
    let ghost want = app@.window_bar(width);
    let ghost tabs = app@.tabs();
    let t = &app.theme;
    let mut out: Vec<Span> = Vec::new();
    let mut marks: usize = 0;
    if start > 0 {
        out.push(bar_span("<".to_owned(), t.highlight_bg, t.bar_bg, true));
        marks = 1;
    }
    let ghost left = spans_view(out@);
    assert(left =~= if start > 0 {
        seq![app@.bar_mark("<"@)]
    } else {
        Seq::empty()
    });
    copy_labels(&mut out, &labels, start, end);
    if end < labels.len() {
        let ghost before = spans_view(out@);
        let mark = bar_span(">".to_owned(), t.highlight_bg, t.bar_bg, true);
        out.push(mark);
        assert(spans_view(out@) =~= before.push(app@.bar_mark(">"@)));
        marks = marks + 1;
    }
    let ghost right = if end < tabs.len() {
        seq![app@.bar_mark(">"@)]
    } else {
        Seq::empty()
    };
    assert(spans_view(out@) =~= left + tabs.subrange(start as int, end as int) + right);
    assert(app@.bar_used(width) == used + marks);
    let width = width as usize;
    if used < width && marks < width - used {
        let ghost before = spans_view(out@);
        let gap = bar_span(spaces(width - used - marks), t.bar_fg, t.bar_bg, false);
        out.push(gap);
        assert(spans_view(out@) =~= before.push(gap@));
    }
    assert(spans_view(out@) =~= want);
    out
}

} // verus!
