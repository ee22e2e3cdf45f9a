//! Styled output: text that is rendered once, either a string that already
//! holds its decoration or a sequence of styled blocks.

use crate::style::Style;
use std::borrow::Cow;
use vstd::prelude::*;
use vstd::string::*;

verus! {

/// Styled text: a span of raw text together with the style to apply to it.
pub trait StyledBlock: Sized {
    /// Style impl
    type Style: Style;

    /// The raw text of the block.
    spec fn spec_text(&self) -> Seq<char>;

    /// The style of the block.
    spec fn spec_style(&self) -> Self::Style;

    /// Raw text to be styled
    fn text(&self) -> (text: &str)
        ensures
            text@ == self.spec_text(),
    ;

    /// `Style` to be applied on `text`
    fn style(&self) -> (style: &Self::Style)
        ensures
            *style == self.spec_style(),
    ;
}

impl<'l, S: Style> StyledBlock for (S, &'l str) {
    type Style = S;

    open spec fn spec_text(&self) -> Seq<char> {
        self.1@
    }

    open spec fn spec_style(&self) -> S {
        self.0
    }

    fn text(&self) -> (text: &str) {
        self.1
    }

    fn style(&self) -> (style: &S) {
        &self.0
    }
}

impl<S: Style> StyledBlock for (S, String) {
    type Style = S;

    open spec fn spec_text(&self) -> Seq<char> {
        self.1@
    }

    open spec fn spec_style(&self) -> S {
        self.0
    }

    fn text(&self) -> (text: &str) {
        self.1.as_str()
    }

    fn style(&self) -> (style: &S) {
        &self.0
    }
}

/// What rendering one block writes: the start token of its style, its text,
/// the end token of its style.
pub open spec fn block_rendered<B: StyledBlock>(block: B) -> Seq<char> {
    block.spec_style().spec_start() + block.spec_text() + block.spec_style().spec_end()
}

/// What rendering a sequence of blocks writes: each block's rendering, in order.
pub open spec fn blocks_rendered<B: StyledBlock>(blocks: Seq<B>) -> Seq<char>
    decreases blocks.len(),
{
    if blocks.len() == 0 {
        Seq::empty()
    } else {
        blocks_rendered(blocks.drop_last()) + block_rendered(blocks.last())
    }
}

/// The raw text of a sequence of blocks: each block's text, in order, with no
/// style token.
pub open spec fn blocks_text<B: StyledBlock>(blocks: Seq<B>) -> Seq<char>
    decreases blocks.len(),
{
    if blocks.len() == 0 {
        Seq::empty()
    } else {
        blocks_text(blocks.drop_last()) + blocks.last().spec_text()
    }
}

/// Whether neither token of the block's style holds any character.
pub open spec fn is_unstyled<B: StyledBlock>(block: B) -> bool {
    block.spec_style().spec_start().len() == 0 && block.spec_style().spec_end().len() == 0
}

/// Blocks whose styles have empty tokens render as their raw text.
pub proof fn lemma_unstyled_blocks_render_as_text<B: StyledBlock>(blocks: Seq<B>)
    requires
        forall|i: int| 0 <= i < blocks.len() ==> is_unstyled(#[trigger] blocks[i]),
    ensures
        blocks_rendered(blocks) == blocks_text(blocks),
    decreases blocks.len(),
{
    if blocks.len() > 0 {
        let init = blocks.drop_last();
        assert forall|i: int| 0 <= i < init.len() implies is_unstyled(#[trigger] init[i]) by {
            assert(init[i] == blocks[i]);
        }
        lemma_unstyled_blocks_render_as_text(init);
        let last = blocks.last();
        assert(is_unstyled(blocks[blocks.len() - 1]));
        assert(block_rendered(last) =~= last.spec_text());
    }
}

/// A value that is consumed by rendering it: once written to a sink it is gone.
pub trait DisplayOnce: Sized {
    /// The text that rendering this value writes.
    spec fn rendered(&self) -> Seq<char>;

    /// Consumes the value and writes it at the end of `f`.
    fn fmt(self, f: &mut String)
        ensures
            final(f)@ == old(f)@ + self.rendered(),
    ;
}

/// A string slice renders as itself: whatever decoration it needs is already
/// part of it.
impl<'l> DisplayOnce for &'l str {
    open spec fn rendered(&self) -> Seq<char> {
        self@
    }

    fn fmt(self, f: &mut String) {
        f.append(self);
    }
}

/// An owned string renders as itself.
impl DisplayOnce for String {
    open spec fn rendered(&self) -> Seq<char> {
        self@
    }

    fn fmt(self, f: &mut String) {
        f.append(self.as_str());
    }
}

/// A borrowed or owned string renders as itself.
impl<'l> DisplayOnce for Cow<'l, str> {
    open spec fn rendered(&self) -> Seq<char> {
        self@
    }

    fn fmt(self, f: &mut String) {
        match self {
            Cow::Borrowed(s) => f.append(s),
            Cow::Owned(s) => f.append(s.as_str()),
        }
    }
}

/// A sequence of styled blocks, rendered block by block: for each one the
/// start token of its style, its text, then the end token of its style.
pub struct StyledBlocks<B: StyledBlock> {
    blocks: Vec<B>,
}

impl<B: StyledBlock> StyledBlocks<B> {
    /// The blocks, in the order in which they are rendered.
    pub closed spec fn blocks(&self) -> Seq<B> {
        self.blocks@
    }

    /// The raw text of the blocks, without any style token.
    pub open spec fn text(&self) -> Seq<char> {
        blocks_text(self.blocks())
    }

    /// create a new [`StyledBlocks`] wrapper
    pub fn new(blocks: Vec<B>) -> (styled: Self)
        ensures
            styled.blocks() == blocks@,
    {
        Self { blocks }
    }
}

impl<B: StyledBlock> DisplayOnce for StyledBlocks<B> {
    open spec fn rendered(&self) -> Seq<char> {
        blocks_rendered(self.blocks())
    }

    fn fmt(self, f: &mut String) {
        let n = self.blocks.len();
        let mut i: usize = 0;
        while i < n
            invariant
                i <= n,
                n == self.blocks@.len(),
                f@ == old(f)@ + blocks_rendered(self.blocks@.take(i as int)),
            decreases n - i,
        {
            let block = &self.blocks[i];
            let style = block.style();
            let start = style.start();
            let end = style.end();
            f.append(start.as_str());
            f.append(block.text());
            f.append(end.as_str());
            proof {
                let done = self.blocks@.take(i + 1);
                assert(done.drop_last() =~= self.blocks@.take(i as int));
                assert(done.last() == self.blocks@[i as int]);
                assert(f@ =~= old(f)@ + blocks_rendered(done));
            }
            i += 1;
        }
        proof {
            assert(self.blocks@.take(n as int) =~= self.blocks@);
        }
    }
}

} // verus!
