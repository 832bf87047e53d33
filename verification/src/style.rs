//! Pieces of text with colours, and how wide text is on the screen.
use vstd::prelude::*;
use unicode_width::UnicodeWidthStr;
use crate::theme::Color;

verus! {

/// A piece of text with its colours.
#[derive(Debug)]
pub struct Span {
    pub text: String,
    pub fg: Option<Color>,
    pub bg: Option<Color>,
    pub bold: bool,
}

/// The model of a piece of text.
#[verifier::ext_equal]
pub struct SpanView {
    pub text: Seq<char>,
    pub fg: Option<Color>,
    pub bg: Option<Color>,
    pub bold: bool,
}

impl View for Span {
    type V = SpanView;

    open spec fn view(&self) -> SpanView {
        SpanView { text: self.text@, fg: self.fg, bg: self.bg, bold: self.bold }
    }
}

/// The models of a row of pieces.
pub open spec fn spans_view(s: Seq<Span>) -> Seq<SpanView> {
    Seq::new(s.len(), |i: int| s[i]@)
}

impl Clone for Span {
    fn clone(&self) -> (r: Self)
        ensures
            r@ == self@,
    {
        Span { text: self.text.clone(), fg: self.fg, bg: self.bg, bold: self.bold }
    }
}

/// Text in one colour.
pub open spec fn colored(text: Seq<char>, fg: Color) -> SpanView {
    SpanView { text, fg: Some(fg), bg: None, bold: false }
}

/// Bold text in one colour.
pub open spec fn emphasized(text: Seq<char>, fg: Color) -> SpanView {
    SpanView { text, fg: Some(fg), bg: None, bold: true }
}

/// Text on a bar.
pub open spec fn on_bar(text: Seq<char>, fg: Color, bg: Color, bold: bool) -> SpanView {
    SpanView { text, fg: Some(fg), bg: Some(bg), bold }
}

/// Text in one colour.
pub fn colored_span(text: String, fg: Color) -> (s: Span)
    ensures
        s@ == colored(text@, fg),
{
    Span { text, fg: Some(fg), bg: None, bold: false }
}

/// Bold text in one colour.
pub fn bold_span(text: String, fg: Color) -> (s: Span)
    ensures
        s@ == emphasized(text@, fg),
{
    Span { text, fg: Some(fg), bg: None, bold: true }
}

/// Text on a bar.
pub fn bar_span(text: String, fg: Color, bg: Color, bold: bool) -> (s: Span)
    ensures
        s@ == on_bar(text@, fg, bg, bold),
{
    Span { text, fg: Some(fg), bg: Some(bg), bold }
}

/// How many columns a text takes up on the screen.
pub uninterp spec fn display_width(s: Seq<char>) -> usize;

/// `unicode_width::UnicodeWidthStr::width`: the number of columns of `s`. It is a
/// function of the text alone; nothing more is claimed of it.
#[verifier::external_body]
pub(crate) fn columns(s: &str) -> (n: usize)
    ensures
        n == display_width(s@),
{
    UnicodeWidthStr::width(s)
}

} // verus!
