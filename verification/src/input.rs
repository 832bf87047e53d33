//! The input line: what of it is shown, the other candidates of a completion, and
//! the cursor.
use vstd::prelude::*;
use crate::app::{App, AppView, TabState, TabView};
use crate::history::wrapped;
use crate::style::{
    bold_span, colored, colored_span, columns, display_width, emphasized, spans_view, Span,
    SpanView,
};
use crate::text::{join, join_of, texts};

verus! {

/// How many other candidates of a completion are shown.
pub const HINTS: usize = 3;

/// The input line on the screen.
#[derive(Debug)]
pub struct InputLine {
    pub spans: Vec<Span>,
    /// The column of the cursor.
    pub cursor: u16,
}

/// The model of the input line on the screen.
#[verifier::ext_equal]
pub struct InputView {
    pub spans: Seq<SpanView>,
    pub cursor: u16,
}

impl View for InputLine {
    type V = InputView;

    open spec fn view(&self) -> InputView {
        InputView { spans: spans_view(self.spans@), cursor: self.cursor }
    }
}

/// The first of the candidates that are not chosen.
pub open spec fn other_candidates(t: TabView) -> Seq<Seq<char>> {
    let rest = t.candidates.remove(t.idx as int);
    if rest.len() > HINTS {
        rest.take(HINTS as int)
    } else {
        rest
    }
}

/// What is shown of a completion in progress, if there is a choice.
pub open spec fn hint_of(tab: Option<TabView>) -> Option<Seq<char>> {
    match tab {
        Some(t) => if t.candidates.len() > 1 {
            Some("  ["@ + join_of(other_candidates(t), " | "@) + "]"@)
        } else {
            None
        },
        None => None,
    }
}

/// The first character that is shown of an input line of `n` characters with room
/// for `room` columns.
pub open spec fn view_start(n: nat, room: nat) -> nat {
    if n > room {
        (n - room) as nat
    } else {
        0
    }
}

/// The columns that are left beside a prompt of `prompt` columns.
pub open spec fn room_for(width: u16, prompt: usize) -> nat {
    if width > prompt {
        (width - prompt) as nat
    } else {
        0
    }
}

/// The column of the cursor: behind the input, or on the last column. Columns are
/// counted modulo the largest number of columns.
pub open spec fn cursor_at(x: u16, width: u16, prompt: usize, scrolled: bool, shown: usize) -> u16 {
    let mark: int = if scrolled {
        1
    } else {
        0
    };
    let behind = (x + prompt as int % 0x1_0000 + mark + shown as int % 0x1_0000) % 0x1_0000;
    let last = (if width > 0 {
        x + width - 1
    } else {
        x as int
    }) % 0x1_0000;
    if behind < last {
        behind as u16
    } else {
        last as u16
    }
}

impl AppView {
    /// The prompt before the input.
    pub open spec fn prompt(self) -> Seq<char> {
        "["@ + self.active_name() + "] "@
    }

    /// The first character of the input that is shown.
    pub open spec fn input_start(self, width: u16) -> nat {
        view_start(self.input.len(), room_for(width, display_width(self.prompt())))
    }

    /// What is shown of the input.
    pub open spec fn visible_input(self, width: u16) -> Seq<char> {
        self.input.skip(self.input_start(width) as int)
    }

    /// What is shown of a completion in progress: only where there is room for it.
    pub open spec fn shown_hint(self, width: u16) -> Option<Seq<char>> {
        if display_width(self.prompt()) + display_width(self.input) + 6 < width {
            hint_of(self.tab)
        } else {
            None
        }
    }

    /// The input line on the screen, from column `x` on.
    pub open spec fn input_line(self, x: u16, width: u16) -> InputView {
        let scrolled = self.input_start(width) > 0;
        let mark = if scrolled {
            seq![colored("‹"@, self.theme.highlight_bg)]
        } else {
            Seq::empty()
        };
        let hint = match self.shown_hint(width) {
            Some(h) => seq![colored(h, self.theme.timestamp)],
            None => Seq::empty(),
        };
        InputView {
            spans: seq![emphasized(self.prompt(), self.theme.bar_fg)] + mark + seq![
                colored(self.visible_input(width), self.theme.text_fg),
            ] + hint,
            cursor: cursor_at(
                x,
                width,
                display_width(self.prompt()),
                scrolled,
                display_width(self.visible_input(width)),
            ),
        }
    }
}

/// The end of the input is always shown: what is shown is its last characters, as
/// many as there are columns beside the prompt, or all of them.
pub proof fn end_of_input_is_shown(v: AppView, width: u16)
    ensures
        ({
            let room = room_for(width, display_width(v.prompt()));
            let shown = v.visible_input(width);
            &&& v.input == v.input.take(v.input_start(width) as int) + shown
            &&& shown.len() == if v.input.len() < room {
                v.input.len()
            } else {
                room
            }
        }),
{
    let k = v.input_start(width) as int;
    assert(v.input =~= v.input.take(k) + v.input.skip(k));
}

/// The cursor stays on the input line, where the columns can be counted.
pub proof fn cursor_stays_on_line(v: AppView, x: u16, width: u16)
    requires
        width > 0,
        x + width <= 0x1_0000,
        x + display_width(v.prompt()) + 1 + display_width(v.visible_input(width)) < 0x1_0000,
    ensures
        x <= v.input_line(x, width).cursor < x + width,
{
}

/// What is shown of a completion in progress, if there is a choice.
fn make_hint(t: &TabState) -> (r: Option<String>)
    requires
        t@.idx < t@.candidates.len(),
    ensures
        match r {
            Some(h) => hint_of(Some(t@)) == Some(h@),
            None => hint_of(Some(t@)) is None,
        },
{
    if t.candidates.len() <= 1 {
        return None;
    }
    let ghost rest = t@.candidates.remove(t.idx as int);
    let mut others: Vec<String> = Vec::new();
    let mut i: usize = 0;
    while i < t.candidates.len() && others.len() < HINTS
        invariant
            i <= t.candidates@.len(),
            t.idx < t.candidates@.len(),
            others@.len() <= HINTS,
            rest == t@.candidates.remove(t.idx as int),
            others@.len() == if i <= t.idx {
                i as int
            } else {
                i - 1
            },
            texts(others@) =~= rest.take(others@.len() as int),
        decreases t.candidates.len() - i,
    {
        if i != t.idx {
            let ghost before = texts(others@);
            others.push(t.candidates[i].clone());
            assert(texts(others@) =~= before.push(t.candidates@[i as int]@));
            assert(t@.candidates[i as int] == t.candidates@[i as int]@);
            assert(rest[before.len() as int] == t.candidates@[i as int]@);
            assert(texts(others@) =~= rest.take(others@.len() as int));
        }
        i = i + 1;
    }
    assert(texts(others@) =~= other_candidates(t@));
    let list = join(&others, " | ");
    Some(wrapped("  [", list.as_str(), "]"))
}

/// The column of the cursor: behind the input, or on the last column.
pub fn place_cursor(x: u16, width: u16, prompt: usize, scrolled: bool, shown: usize) -> (c: u16)
    ensures
        c == cursor_at(x, width, prompt, scrolled, shown),
{
    let mark: u32 = if scrolled { 1 } else { 0 };
    let behind = (x as u32 + (prompt % 0x1_0000) as u32 + mark + (shown % 0x1_0000) as u32)
        % 0x1_0000;
    let gap: u32 = if width > 0 { width as u32 - 1 } else { 0 };
    let last = (x as u32 + gap) % 0x1_0000;
    if behind < last {
        behind as u16
    } else {
        last as u16
    }
}

/// The input line on the screen, from column `x` on.
pub fn draw_input_line(app: &App, x: u16, width: u16) -> (r: InputLine)
    requires
        app.wf(),
    ensures
        r@ == app@.input_line(x, width),
{
    let ghost v = app@;
    let prompt = wrapped("[", app.active_name(), "] ");
    let prompt_w = columns(prompt.as_str());
    let input_w = columns(app.input.as_str());
    let room: usize = if width as usize > prompt_w { width as usize - prompt_w } else { 0 };
    let n = app.input.as_str().unicode_len();
    let start: usize = if n > room { n - room } else { 0 };
    let visible = app.input.as_str().substring_char(start, n).to_owned();
    assert(visible@ =~= v.visible_input(width));
    let visible_w = columns(visible.as_str());
    let mut spans: Vec<Span> = Vec::new();
    spans.push(bold_span(prompt, app.theme.bar_fg));
    if start > 0 {
        spans.push(colored_span("‹".to_owned(), app.theme.highlight_bg));
    }
    spans.push(colored_span(visible, app.theme.text_fg));
    if prompt_w as u128 + input_w as u128 + 6 < width as u128 {
        if let Some(t) = &app.tab {
            assert(v.tab == Some(t@));
            if let Some(h) = make_hint(t) {
                spans.push(colored_span(h, app.theme.timestamp));
            }
        }
    }
    let cursor = place_cursor(x, width, prompt_w, start > 0, visible_w);
    assert(spans_view(spans@) =~= v.input_line(x, width).spans);
    InputLine { spans, cursor }
}

} // verus!
