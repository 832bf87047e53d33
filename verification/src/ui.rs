//! The screen: four rows of areas and what is drawn in each.
use vstd::prelude::*;
use ratatui::layout::{Constraint, Direction, Layout, Rect};
use crate::app::{App, AppView};
use crate::bar::{draw_topic_bar, draw_window_bar};
use crate::clock::{is_clock, now};
use crate::input::{draw_input_line, InputLine, InputView};
use crate::pane::{draw_scrollback, Pane, PaneView};
use crate::style::{spans_view, Span, SpanView};

verus! {

/// A rectangle on the screen.
#[derive(Clone, Copy, Debug, PartialEq, Eq, Structural)]
pub struct Area {
    pub x: u16,
    pub y: u16,
    pub width: u16,
    pub height: u16,
}

/// The areas of the screen, from the top down.
#[derive(Clone, Copy, Debug, PartialEq, Eq, Structural)]
pub struct Rows {
    pub topic: Area,
    pub pane: Area,
    pub bar: Area,
    pub input: Area,
}

/// Rows of the heights `top`, at least `least`, `bar` and `input`, which fill an
/// area from the top down where they fit into it.
pub open spec fn laid_out(
    rows: Rows,
    area: Area,
    top: u16,
    least: u16,
    bar: u16,
    input: u16,
) -> bool {
    let rest = area.height - top - bar - input;
    &&& rows.topic.x == area.x && rows.topic.width == area.width
    &&& rows.pane.x == area.x && rows.pane.width == area.width
    &&& rows.bar.x == area.x && rows.bar.width == area.width
    &&& rows.input.x == area.x && rows.input.width == area.width
    &&& least <= rest && least <= i16::MAX && area.y + area.height <= u16::MAX ==> {
        &&& rows.topic.y == area.y && rows.topic.height == top
        &&& rows.pane.y == area.y + top && rows.pane.height == rest
        &&& rows.bar.y == area.y + top + rest && rows.bar.height == bar
        &&& rows.input.y == area.y + top + rest + bar && rows.input.height == input
    }
}

/// `ratatui::layout::Layout::split`, downwards, by the constraints `Length(top)`,
/// `Min(least)`, `Length(bar)` and `Length(input)`: it gives four rows, every row is
/// as wide as the area, and where the heights fit, each row with a length has it
/// and the other one takes the rest. How the heights are chosen where they do not
/// fit is left to its solver; nothing is claimed of them.
#[verifier::external_body]
fn split_rows(area: Area, top: u16, least: u16, bar: u16, input: u16) -> (r: Vec<Area>)
    ensures
        r@.len() == 4,
        laid_out(
            (Rows { topic: r@[0], pane: r@[1], bar: r@[2], input: r@[3] }),
            area,
            top,
            least,
            bar,
            input,
        ),
{
    let whole = Rect { x: area.x, y: area.y, width: area.width, height: area.height };
    let heights = [
        Constraint::Length(top), Constraint::Min(least),
        Constraint::Length(bar), Constraint::Length(input),
    ];
    let rows = Layout::default().direction(Direction::Vertical).constraints(heights).split(whole);
    rows.iter().map(|r| Area { x: r.x, y: r.y, width: r.width, height: r.height }).collect()
}

/// What is drawn on the screen.
#[derive(Debug)]
pub struct Screen {
    pub rows: Rows,
    pub topic: Span,
    pub pane: Pane,
    pub bar: Vec<Span>,
    pub input: InputLine,
}

/// The model of the screen.
#[verifier::ext_equal]
pub struct ScreenView {
    pub rows: Rows,
    pub topic: SpanView,
    pub pane: PaneView,
    pub bar: Seq<SpanView>,
    pub input: InputView,
}

impl View for Screen {
    type V = ScreenView;

    open spec fn view(&self) -> ScreenView {
        ScreenView {
            rows: self.rows,
            topic: self.topic@,
            pane: self.pane@,
            bar: spans_view(self.bar@),
            input: self.input@,
        }
    }
}

/// Rows of the screen: one row each for the topic, the windows and the input, and
/// the rest for the scrollback.
pub open spec fn screen_rows(rows: Rows, area: Area) -> bool {
    laid_out(rows, area, 1, 1, 1, 1)
}

impl AppView {
    /// The screen at the time `ts`.
    pub open spec fn screen(self, rows: Rows, ts: Seq<char>) -> ScreenView {
        ScreenView {
            rows,
            topic: self.topic_bar(ts, rows.topic.width),
            pane: self.pane(rows.pane.width, rows.pane.height),
            bar: self.window_bar(rows.bar.width),
            input: self.input_line(rows.input.x, rows.input.width),
        }
    }
}

/// The screen at the time `ts`, on the areas `rows`.
pub fn ui_at(app: &App, rows: Rows, ts: &str) -> (s: Screen)
    requires
        app.wf(),
    ensures
        s@ == app@.screen(rows, ts@),
{
    Screen {
        rows,
        topic: draw_topic_bar(app, ts, rows.topic.width),
        pane: draw_scrollback(app, rows.pane.width, rows.pane.height),
        bar: draw_window_bar(app, rows.bar.width),
        input: draw_input_line(app, rows.input.x, rows.input.width),
    }
}

/// The screen at the present time, on an area.
pub fn ui(app: &App, area: Area) -> (s: Screen)
    requires
        app.wf(),
    ensures
        screen_rows(s.rows, area),
        exists|ts: Seq<char>| is_clock(ts) && s@ == #[trigger] app@.screen(s.rows, ts),
{
    let areas = split_rows(area, 1, 1, 1, 1);
    let rows = Rows { topic: areas[0], pane: areas[1], bar: areas[2], input: areas[3] };
    let ts = now();
    ui_at(app, rows, ts.as_str())
}

} // verus!
