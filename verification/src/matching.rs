//! Highlighting of the bracket that matches the one next to the cursor.

use crate::bracket::{
    check_bracket, find_matching_bracket, spec_check_bracket, spec_find_matching_bracket,
    spec_is_bracket,
};
use crate::highlight::Highlighter;
use crate::style::{ansi_render, ansi_render_reset, bold_blue, bold_blue_token, reset_token};
use crate::text::{lemma_ascii_byte_is_char, lemma_encode_concat};
use anstyle::Style as AnsiStyle;
use std::borrow::Cow;
use vstd::prelude::*;
use vstd::string::*;
use vstd::utf8::*;

verus! {

/// The bytes written before the matching bracket, `ESC [ 1 ; 3 4 m`: bold and
/// a blue foreground.
pub open spec fn highlight_start() -> Seq<u8> {
    seq![0x1bu8, 0x5bu8, 0x31u8, 0x3bu8, 0x33u8, 0x34u8, 0x6du8]
}

/// The bytes written after the matching bracket, `ESC [ 0 m`: reset.
pub open spec fn highlight_end() -> Seq<u8> {
    seq![0x1bu8, 0x5bu8, 0x30u8, 0x6du8]
}

/// The line with the byte at `idx` wrapped between the two escape sequences.
pub open spec fn decorate(line: Seq<u8>, idx: int) -> Seq<u8> {
    line.subrange(0, idx) + highlight_start() + line.subrange(idx, idx + 1) + highlight_end()
        + line.subrange(idx + 1, line.len() as int)
}

/// What the highlighter renders for `line` when its cache holds `cache`: the
/// line with the counterpart of the cached bracket decorated, or the line as
/// it is when it is too short, nothing is cached or there is no counterpart.
pub open spec fn spec_highlight(line: Seq<u8>, cache: Option<(u8, usize)>) -> Seq<u8> {
    if line.len() <= 1 {
        line
    } else {
        match cache {
            Some((bracket, pos)) => match spec_find_matching_bracket(line, pos as int, bracket) {
                Some((_, idx)) => decorate(line, idx as int),
                None => line,
            },
            None => line,
        }
    }
}

/// What the cache holds after a refresh decision, whatever it held `before`:
/// nothing when the decision is `forced`, else the bracket next to the cursor.
pub open spec fn cache_after(
    before: Option<(u8, usize)>,
    line: Seq<u8>,
    pos: int,
    forced: bool,
) -> Option<(u8, usize)> {
    if forced {
        None
    } else {
        spec_check_bracket(line, pos)
    }
}

/// Highlight matching bracket when typed or cursor moved on.
pub struct MatchingBracketHighlighter {
    style: AnsiStyle,
    bracket: Option<(u8, usize)>,  // memorize the character to search...
}

impl MatchingBracketHighlighter {
    #[verifier::type_invariant]
    spec fn cache_holds_a_bracket(self) -> bool {
        self.bracket matches Some((b, _)) ==> spec_is_bracket(b)
    }

    /// The cached bracket and its byte position, if any.
    pub closed spec fn cache(&self) -> Option<(u8, usize)> {
        self.bracket
    }

    /// The style that the highlighter was made with.
    pub closed spec fn spec_style(&self) -> AnsiStyle {
        self.style
    }

    /// Constructor
    #[must_use]
    pub fn new() -> (highlighter: Self)
        ensures
            highlighter.cache() is None,
            ansi_render(highlighter.spec_style()) == bold_blue_token(),
            ansi_render_reset(highlighter.spec_style()) == reset_token(),
    {
        Self { style: bold_blue(), bracket: None }
    }

    /// The style that the highlighter was made with.
    pub fn style(&self) -> (style: &AnsiStyle)
        ensures
            *style == self.spec_style(),
    {
        &self.style
    }
}

/// Deciding again on the same line, cursor and flag changes nothing: the
/// cache is what the first decision left, whatever it held before, and so is
/// what the line renders as.
pub proof fn lemma_refresh_is_idempotent(
    before: Option<(u8, usize)>,
    line: Seq<u8>,
    pos: int,
    forced: bool,
)
    ensures
        ({
            let first = cache_after(before, line, pos, forced);
            let second = cache_after(first, line, pos, forced);
            &&& second == first
            &&& spec_highlight(line, second) == spec_highlight(line, first)
        }),
{
}

impl Default for MatchingBracketHighlighter {
    /// An empty cache and the plain style.
    fn default() -> (highlighter: Self)
        ensures
            highlighter.cache() is None,
            ansi_render(highlighter.spec_style()) == Seq::<char>::empty(),
            ansi_render_reset(highlighter.spec_style()) == Seq::<char>::empty(),
    {
        Self { style: AnsiStyle::new(), bracket: None }
    }
}

impl Highlighter for MatchingBracketHighlighter {
    /// Renders the line with the counterpart of the cached bracket in bold
    /// blue. The cursor position is not read: the cache already holds what the
    /// last refresh decision saw.
    fn highlight<'b, 's: 'b, 'l: 'b>(&'s mut self, line: &'l str, pos: usize) -> (out: Cow<'b, str>)
        ensures
            *final(self) == *old(self),
            encode_utf8(out@) == spec_highlight(line.spec_bytes(), old(self).cache()),
            out@ == decode_utf8(spec_highlight(line.spec_bytes(), old(self).cache())),
            line.spec_bytes().len() <= 1 ==> out@ == line@,
            out is Borrowed <==> spec_highlight(line.spec_bytes(), old(self).cache())
                == line.spec_bytes(),
    {
        proof {
            encode_utf8_decode_utf8(line@);
        }
        if line.as_bytes().len() <= 1 {
            return Cow::Borrowed(line);
        }
        // highlight matching brace/bracket/parenthesis if it exists
        if let Some((bracket, anchor)) = self.bracket {
            if let Some((matching, idx)) = find_matching_bracket(line, anchor, bracket) {
                let ghost bytes = line.spec_bytes();
                proof {
                    use_type_invariant(&*self);
                    encode_utf8_valid_utf8(line@);
                    lemma_ascii_byte_is_char(bytes, idx as int);
                }
                let (head, rest) = line.split_at(idx);
                proof {
                    encode_utf8_valid_utf8(rest@);
                    assert(rest.spec_bytes() == bytes.subrange(idx as int, bytes.len() as int));
                }
                let (mid, tail) = rest.split_at(1);
                let mut copy = head.to_owned();
                copy.append("\x1b[1;34m");
                copy.append(mid);
                copy.append("\x1b[0m");
                copy.append(tail);
                proof {
                    let start = "\x1b[1;34m";
                    let end = "\x1b[0m";
                    reveal_strlit("\x1b[1;34m");
                    reveal_strlit("\x1b[0m");
                    is_ascii_spec_bytes(start);
                    is_ascii_spec_bytes(end);
                    assert(start.spec_bytes() =~= highlight_start());
                    assert(end.spec_bytes() =~= highlight_end());
                    lemma_encode_concat(head@, start@);
                    lemma_encode_concat(head@ + start@, mid@);
                    lemma_encode_concat(head@ + start@ + mid@, end@);
                    lemma_encode_concat(head@ + start@ + mid@ + end@, tail@);
                    assert(mid.spec_bytes() =~= bytes.subrange(idx as int, idx + 1));
                    assert(tail.spec_bytes() =~= bytes.subrange(idx + 1, bytes.len() as int));
                    assert(encode_utf8(copy@) =~= decorate(bytes, idx as int));
                    assert(decorate(bytes, idx as int).len() > bytes.len());
                    encode_utf8_decode_utf8(copy@);
                }
                return Cow::Owned(copy);
            }
        }
        Cow::Borrowed(line)
    }

    /// Remembers the bracket next to the cursor, and asks for a repaint when
    /// there is one. A forced decision forgets the bracket and asks for none.
    fn highlight_char(&mut self, line: &str, pos: usize, forced: bool) -> (repaint: bool)
        ensures
            final(self).cache() == cache_after(
                old(self).cache(),
                line.spec_bytes(),
                pos as int,
                forced,
            ),
            final(self).spec_style() == old(self).spec_style(),
            repaint == final(self).cache().is_some(),
            forced ==> !repaint && final(self).cache() is None,
    {
        if forced {
            self.bracket = None;
            return false;
        }
        // will highlight matching brace/bracket/parenthesis if it exists
        self.bracket = check_bracket(line, pos);
        self.bracket.is_some()
    }
}

} // verus!
