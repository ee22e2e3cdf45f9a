//! Styles: what is written before and after a span of text to decorate it.

use anstyle::Style as AnsiStyle;
use vstd::prelude::*;

verus! {

/// A style for a span of text, given by the two tokens that are written around
/// the span: one that switches the decoration on and one that switches it off.
pub trait Style {
    /// The token that switches the decoration on.
    spec fn spec_start(&self) -> Seq<char>;

    /// The token that switches the decoration off.
    spec fn spec_end(&self) -> Seq<char>;

    /// Produces the sequence which sets the graphic mode.
    fn start(&self) -> (token: String)
        ensures
            token@ == self.spec_start(),
    ;

    /// Produces the sequence which ends the graphic mode.
    fn end(&self) -> (token: String)
        ensures
            token@ == self.spec_end(),
    ;
}

/// The unit style decorates nothing: both of its tokens are empty.
impl Style for () {
    open spec fn spec_start(&self) -> Seq<char> {
        Seq::empty()
    }

    open spec fn spec_end(&self) -> Seq<char> {
        Seq::empty()
    }

    fn start(&self) -> (token: String) {
        String::new()
    }

    fn end(&self) -> (token: String) {
        String::new()
    }
}

/// `anstyle::Style`, carried through as an opaque value.
#[verifier::external_type_specification]
#[verifier::external_body]
pub struct ExAnsiStyle(AnsiStyle);

/// The text that `anstyle::Style::render` displays for `style`.
pub uninterp spec fn ansi_render(style: AnsiStyle) -> Seq<char>;

/// The text that `anstyle::Style::render_reset` displays for `style`.
pub uninterp spec fn ansi_render_reset(style: AnsiStyle) -> Seq<char>;

/// The escape sequence that resets every graphic mode: `ESC [ 0 m`.
pub open spec fn reset_token() -> Seq<char> {
    seq!['\x1b', '[', '0', 'm']
}

/// Displays `anstyle::Style::render` of `style` into a string. The result is a
/// function of the style alone; nothing else is claimed of it.
#[verifier::external_body]
fn render(style: &AnsiStyle) -> (token: String)
    ensures
        token@ == ansi_render(*style),
{
    format!("{}", style.render())
}

/// Displays `anstyle::Style::render_reset` of `style` into a string. The
/// result is a function of the style alone, and is either empty, when the
/// style has nothing to reset, or the reset sequence.
#[verifier::external_body]
fn render_reset(style: &AnsiStyle) -> (token: String)
    ensures
        token@ == ansi_render_reset(*style),
        token@ == Seq::<char>::empty() || token@ == reset_token(),
{
    format!("{}", style.render_reset())
}

/// The text that anstyle displays for bold on a blue foreground: the escape
/// sequence of the bold effect, `ESC [ 1 m`, then that of the blue foreground,
/// `ESC [ 3 4 m`.
pub open spec fn bold_blue_token() -> Seq<char> {
    seq!['\x1b', '[', '1', 'm', '\x1b', '[', '3', '4', 'm']
}

/// `anstyle::Style::new`: the style with no effect and no color. It renders
/// as nothing, and has nothing to reset.
pub assume_specification[ AnsiStyle::new ]() -> (style: AnsiStyle)
    ensures
        ansi_render(style) == Seq::<char>::empty(),
        ansi_render_reset(style) == Seq::<char>::empty(),
;

/// Builds the bold blue style with anstyle: `Style::new`, then `Style::bold`,
/// then `Style::fg_color` with the color that `From<AnsiColor>` makes of
/// `AnsiColor::Blue`. anstyle renders the effects of a style before its
/// foreground, and resets any style that is not plain.
#[verifier::external_body]
pub(crate) fn bold_blue() -> (style: AnsiStyle)
    ensures
        ansi_render(style) == bold_blue_token(),
        ansi_render_reset(style) == reset_token(),
{
    AnsiStyle::new().bold().fg_color(Some(anstyle::AnsiColor::Blue.into()))
}

impl Style for AnsiStyle {
    open spec fn spec_start(&self) -> Seq<char> {
        ansi_render(*self)
    }

    open spec fn spec_end(&self) -> Seq<char> {
        ansi_render_reset(*self)
    }

    fn start(&self) -> (token: String) {
        render(self)
    }

    fn end(&self) -> (token: String) {
        render_reset(self)
    }
}

} // verus!
