//! The highlighter capability: what an editor asks of a highlighter, what
//! it gets when the highlighter has nothing to add, and how a highlighter is
//! reached through a reference.

use crate::config::CompletionType;
use std::borrow::Cow;
use vstd::prelude::*;

verus! {

/// Syntax highlighter with ANSI color.
///
/// Currently, the highlighted version *must* have the same display width as
/// the original input.
///
/// Every operation has a default that changes nothing: the text comes back
/// borrowed, as it is, no repaint is asked for, and the highlighter stays as
/// it was.
pub trait Highlighter: Sized {
    /// Takes the currently edited `line` with the cursor `pos`ition and
    /// returns the highlighted version (with ANSI color).
    ///
    /// For example, a highlighter can make the bracket that matches the one
    /// under the cursor stand out.
    fn highlight<'b, 's: 'b, 'l: 'b>(&'s mut self, line: &'l str, pos: usize) -> (out: Cow<'b, str>)
        default_ensures
            out@ == line@,
            out is Borrowed,
            *final(self) == *old(self),
    {
        Cow::Borrowed(line)
    }

    /// Takes the `prompt` and
    /// returns the highlighted version (with ANSI color).
    fn highlight_prompt<'b, 's: 'b, 'p: 'b>(&'s mut self, prompt: &'p str, default: bool) -> (out:
        Cow<'b, str>)
        default_ensures
            out@ == prompt@,
            out is Borrowed,
            *final(self) == *old(self),
    {
        Cow::Borrowed(prompt)
    }

    /// Takes the `hint` and
    /// returns the highlighted version (with ANSI color).
    fn highlight_hint<'b, 's: 'b, 'h: 'b>(&'s mut self, hint: &'h str) -> (out: Cow<'b, str>)
        default_ensures
            out@ == hint@,
            out is Borrowed,
            *final(self) == *old(self),
    {
        Cow::Borrowed(hint)
    }

    /// Takes the completion `candidate` and
    /// returns the highlighted version (with ANSI color).
    ///
    /// Currently, used only with `CompletionType::List`.
    fn highlight_candidate<'b, 's: 'b, 'c: 'b>(
        &'s mut self,
        candidate: &'c str,
        completion: CompletionType,
    ) -> (out: Cow<'b, str>)
        default_ensures
            out@ == candidate@,
            out is Borrowed,
            *final(self) == *old(self),
    {
        Cow::Borrowed(candidate)
    }

    /// Tells if `line` needs to be highlighted when a specific char is typed or
    /// when cursor is moved under a specific char.
    /// `forced` flag is `true` mainly when user presses Enter (i.e. transient
    /// vs final highlight).
    ///
    /// Used to optimize refresh when a character is inserted or the cursor is
    /// moved.
    fn highlight_char(&mut self, line: &str, pos: usize, forced: bool) -> (repaint: bool)
        default_ensures
            !repaint,
            *final(self) == *old(self),
    {
        false
    }
}

/// The unit highlighter: every operation is the default.
impl Highlighter for () {

}

/// A highlighter reached through an exclusive reference behaves as the
/// highlighter itself: every operation is handed on to it.
///
/// Each contract says so in two clauses. After the call the reference still
/// leads to the same highlighter. And there is a borrow of that highlighter,
/// from its value before the call to its value after it, for which the
/// highlighter's own operation, on the same arguments, allows the result that
/// came back.
impl<'r, H: Highlighter> Highlighter for &'r mut H {
    fn highlight<'b, 's: 'b, 'l: 'b>(&'s mut self, line: &'l str, pos: usize) -> (out: Cow<'b, str>)
        ensures
            *final(*final(self)) == *final(*old(self)),
            exists|inner: &mut H|
                *inner == **old(self) && *final(inner) == **final(self) && call_ensures(
                    H::highlight,
                    (inner, line, pos),
                    out,
                ),
    {
        (**self).highlight(line, pos)
    }

    fn highlight_prompt<'b, 's: 'b, 'p: 'b>(&'s mut self, prompt: &'p str, default: bool) -> (out:
        Cow<'b, str>)
        ensures
            *final(*final(self)) == *final(*old(self)),
            exists|inner: &mut H|
                *inner == **old(self) && *final(inner) == **final(self) && call_ensures(
                    H::highlight_prompt,
                    (inner, prompt, default),
                    out,
                ),
    {
        (**self).highlight_prompt(prompt, default)
    }

    fn highlight_hint<'b, 's: 'b, 'h: 'b>(&'s mut self, hint: &'h str) -> (out: Cow<'b, str>)
        ensures
            *final(*final(self)) == *final(*old(self)),
            exists|inner: &mut H|
                *inner == **old(self) && *final(inner) == **final(self) && call_ensures(
                    H::highlight_hint,
                    (inner, hint),
                    out,
                ),
    {
        (**self).highlight_hint(hint)
    }

    fn highlight_candidate<'b, 's: 'b, 'c: 'b>(
        &'s mut self,
        candidate: &'c str,
        completion: CompletionType,
    ) -> (out: Cow<'b, str>)
        ensures
            *final(*final(self)) == *final(*old(self)),
            exists|inner: &mut H|
                *inner == **old(self) && *final(inner) == **final(self) && call_ensures(
                    H::highlight_candidate,
                    (inner, candidate, completion),
                    out,
                ),
    {
        (**self).highlight_candidate(candidate, completion)
    }

    fn highlight_char(&mut self, line: &str, pos: usize, forced: bool) -> (repaint: bool)
        ensures
            *final(*final(self)) == *final(*old(self)),
            exists|inner: &mut H|
                *inner == **old(self) && *final(inner) == **final(self) && call_ensures(
                    H::highlight_char,
                    (inner, line, pos, forced),
                    repaint,
                ),
    {
        (**self).highlight_char(line, pos, forced)
    }
}

} // verus!
