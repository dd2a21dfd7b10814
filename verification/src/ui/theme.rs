//! Colours of the terminal interface: on where the terminal shows colours, off
//! in a pipe or a file.
use crate::text::{repeat, repeated};
use vstd::prelude::*;
use vstd::string::*;

verus! {

/// What a text is marked as.
#[derive(Debug, Clone, Copy, PartialEq, Eq, Structural)]
pub enum Style {
    /// A title: bright magenta and bold.
    Title,
    /// The name of a field: cyan.
    Field,
    /// A success: green.
    Success,
    /// A warning: yellow.
    Warning,
    /// A failure: red.
    Failure,
    /// What matters less: dim.
    Dim,
    /// The selected line: reversed and bold.
    Highlight,
}

/// The name of a style.
pub open spec fn style_name(style: Style) -> Seq<char> {
    match style {
        Style::Title => "magenta.bright.bold"@,
        Style::Field => "cyan"@,
        Style::Success => "green"@,
        Style::Warning => "yellow"@,
        Style::Failure => "red"@,
        Style::Dim => "dim"@,
        Style::Highlight => "reverse.bold"@,
    }
}

/// The escape codes that switch a style on.
pub open spec fn style_codes(style: Style) -> Seq<char> {
    match style {
        Style::Title => "\x1b[38;5;13m\x1b[1m"@,
        Style::Field => "\x1b[36m"@,
        Style::Success => "\x1b[32m"@,
        Style::Warning => "\x1b[33m"@,
        Style::Failure => "\x1b[31m"@,
        Style::Dim => "\x1b[2m"@,
        Style::Highlight => "\x1b[1m\x1b[7m"@,
    }
}

/// A text in a style, where colours are on.
pub open spec fn painted(style: Style, s: Seq<char>, on: bool) -> Seq<char> {
    if on {
        style_codes(style) + s + "\x1b[0m"@
    } else {
        s
    }
}

/// Calls `console::Style::from_dotted_str`, `force_styling` and `apply_to`,
/// and writes the styled object. What is claimed of it, for the styles used
/// here: where styling is off the text is unchanged; where it is on, the codes
/// of the style come before the text and the reset code comes after it.
#[verifier::external_body]
fn styled(dotted: &str, s: &str, on: bool) -> (r: String)
    requires
        exists|style: Style| dotted@ == #[trigger] style_name(style),
    ensures
        forall|style: Style| #[trigger]
            style_name(style) == dotted@ ==> r@ == painted(style, s@, on),
{
    console::Style::from_dotted_str(dotted).force_styling(on).apply_to(s).to_string()
}

/// Calls `console::colors_enabled_stderr`. Nothing is claimed of it: the
/// answer depends on the terminal and on the environment.
#[verifier::external_body]
fn colors_on() -> (r: bool) {
    console::colors_enabled_stderr()
}

/// Writes a text in a style, where colours are on.
pub fn paint(style: Style, s: &str, on: bool) -> (r: String)
    ensures
        r@ == painted(style, s@, on),
{
    let name = match style {
        Style::Title => "magenta.bright.bold",
        Style::Field => "cyan",
        Style::Success => "green",
        Style::Warning => "yellow",
        Style::Failure => "red",
        Style::Dim => "dim",
        Style::Highlight => "reverse.bold",
    };
    assert(name@ == style_name(style));
    styled(name, s, on)
}

/// Whether `on` is what the terminal answered on its colours.
pub closed spec fn colors_read(on: bool) -> bool {
    call_ensures(colors_on, (), on)
}

/// Whether `r` is a text in a style, in colour exactly where the terminal
/// answered that it shows colours.
pub open spec fn shown_by_terminal(style: Style, s: Seq<char>, r: Seq<char>) -> bool {
    exists|on: bool| #[trigger] colors_read(on) && r == painted(style, s, on)
}

/// A style leaves the text whole: off, the text is unchanged; on, it stands
/// between the codes of the style and the code that ends it.
pub proof fn law_painted_keeps_text(style: Style, s: Seq<char>)
    ensures
        painted(style, s, false) == s,
        painted(style, s, true).len() == style_codes(style).len() + s.len() + 4,
        painted(style, s, true).subrange(
            style_codes(style).len() as int,
            (style_codes(style).len() + s.len()) as int,
        ) == s,
{
    reveal_strlit("\x1b[0m");
    let on = painted(style, s, true);
    let n = style_codes(style).len() as int;
    assert(on.subrange(n, n + s.len()) == s);
}

/// Whether `r` is a text in a style, as the terminal shows it.
pub open spec fn shown_as(style: Style, s: Seq<char>, r: Seq<char>) -> bool {
    r == painted(style, s, true) || r == painted(style, s, false)
}

/// A title.
pub fn title(s: &str) -> (r: String)
    ensures
        shown_as(Style::Title, s@, r@),
        shown_by_terminal(Style::Title, s@, r@),
{
    let on = colors_on();
    assert(colors_read(on));
    paint(Style::Title, s, on)
}

/// The name of a field.
pub fn field(s: &str) -> (r: String)
    ensures
        shown_as(Style::Field, s@, r@),
        shown_by_terminal(Style::Field, s@, r@),
{
    let on = colors_on();
    assert(colors_read(on));
    paint(Style::Field, s, on)
}

/// A success.
pub fn ok(s: &str) -> (r: String)
    ensures
        shown_as(Style::Success, s@, r@),
        shown_by_terminal(Style::Success, s@, r@),
{
    let on = colors_on();
    assert(colors_read(on));
    paint(Style::Success, s, on)
}

/// A warning.
pub fn warn(s: &str) -> (r: String)
    ensures
        shown_as(Style::Warning, s@, r@),
        shown_by_terminal(Style::Warning, s@, r@),
{
    let on = colors_on();
    assert(colors_read(on));
    paint(Style::Warning, s, on)
}

/// A failure.
pub fn err(s: &str) -> (r: String)
    ensures
        shown_as(Style::Failure, s@, r@),
        shown_by_terminal(Style::Failure, s@, r@),
{
    let on = colors_on();
    assert(colors_read(on));
    paint(Style::Failure, s, on)
}

/// What matters less.
pub fn dim(s: &str) -> (r: String)
    ensures
        shown_as(Style::Dim, s@, r@),
        shown_by_terminal(Style::Dim, s@, r@),
{
    let on = colors_on();
    assert(colors_read(on));
    paint(Style::Dim, s, on)
}

/// The selected line.
pub fn highlight(s: &str) -> (r: String)
    ensures
        shown_as(Style::Highlight, s@, r@),
        shown_by_terminal(Style::Highlight, s@, r@),
{
    let on = colors_on();
    assert(colors_read(on));
    paint(Style::Highlight, s, on)
}

/// The width of a dividing line.
pub const DIVIDER_WIDTH: usize = 46;

/// A dividing line.
pub fn divider() -> (r: String)
    ensures
        shown_as(Style::Dim, repeated("─"@, DIVIDER_WIDTH as nat), r@),
        shown_by_terminal(Style::Dim, repeated("─"@, DIVIDER_WIDTH as nat), r@),
{
    let line = repeat("─", DIVIDER_WIDTH);
    dim(line.as_str())
}

} // verus!
