//! Syntax highlighting for an interactive line editor.
//!
//! While a line is edited, the editor asks a [`highlight::Highlighter`] on
//! every keystroke whether the line has to be painted again, and if so for the
//! line with its decoration. What comes back is rendered once
//! ([`styled::DisplayOnce`]): a string that already holds its escape
//! sequences, or a sequence of blocks, each with a [`style::Style`].
//! [`matching::MatchingBracketHighlighter`] is a highlighter that makes the
//! counterpart of the bracket next to the cursor stand out; [`bracket`] holds
//! its search, and [`strip`] shows that its decoration can be taken out again.

pub mod bracket;
pub mod config;
pub mod highlight;
pub mod matching;
pub mod strip;
pub mod style;
pub mod styled;
pub mod text;
