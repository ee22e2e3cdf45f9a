//! Reading a highlighted line back: the line is what is left once the escape
//! sequences of the highlighter are taken out.

use crate::matching::{decorate, highlight_end, highlight_start, spec_highlight};
use vstd::prelude::*;

verus! {

/// Whether `text` begins with `token`.
pub open spec fn starts_with(text: Seq<u8>, token: Seq<u8>) -> bool {
    token.len() <= text.len() && text.subrange(0, token.len() as int) == token
}

/// Whether one of the two escape sequences of the highlighter begins at
/// index `i` of `text`.
pub open spec fn token_at(text: Seq<u8>, i: int) -> bool {
    &&& 0 <= i <= text.len()
    &&& starts_with(text.skip(i), highlight_start()) || starts_with(text.skip(i), highlight_end())
}

/// Whether one of the two escape sequences occurs in `text`.
pub open spec fn holds_token(text: Seq<u8>) -> bool {
    exists|i: int| token_at(text, i)
}

/// `text` without the escape sequences of the highlighter: read from left to
/// right, each occurrence of one of them is left out.
pub open spec fn strip_tokens(text: Seq<u8>) -> Seq<u8>
    decreases text.len(),
{
    if text.len() == 0 {
        text
    } else if starts_with(text, highlight_start()) {
        strip_tokens(text.skip(highlight_start().len() as int))
    } else if starts_with(text, highlight_end()) {
        strip_tokens(text.skip(highlight_end().len() as int))
    } else {
        seq![text[0]] + strip_tokens(text.skip(1))
    }
}

/// Stripping passes over a prefix in which no escape sequence begins.
pub proof fn lemma_strip_prefix(prefix: Seq<u8>, rest: Seq<u8>)
    requires
        forall|i: int| 0 <= i < prefix.len() ==> !token_at(prefix + rest, i),
    ensures
        strip_tokens(prefix + rest) == prefix + strip_tokens(rest),
    decreases prefix.len(),
{
    let text = prefix + rest;
    if prefix.len() == 0 {
        assert(text =~= rest);
        assert(prefix + strip_tokens(rest) =~= strip_tokens(rest));
    } else {
        assert(!token_at(text, 0));
        assert(text.skip(0) =~= text);
        let tail = prefix.skip(1);
        assert(text.skip(1) =~= tail + rest);
        assert forall|i: int| 0 <= i < tail.len() implies !token_at(tail + rest, i) by {
            assert(!token_at(text, i + 1));
            assert((tail + rest).skip(i) =~= text.skip(i + 1));
        }
        lemma_strip_prefix(tail, rest);
        assert(seq![text[0]] + (tail + strip_tokens(rest)) =~= prefix + strip_tokens(rest));
    }
}

/// Text that holds no escape sequence is left as it is.
pub proof fn lemma_strip_plain(text: Seq<u8>)
    requires
        !holds_token(text),
    ensures
        strip_tokens(text) == text,
{
    let nothing = Seq::<u8>::empty();
    assert(text + nothing =~= text);
    assert forall|i: int| 0 <= i < text.len() implies !token_at(text + nothing, i) by {
        assert(!token_at(text, i));
    }
    lemma_strip_prefix(text, nothing);
    assert(text + strip_tokens(nothing) =~= text);
}

/// Each of the two escape sequences holds the escape byte at its start and
/// nowhere else.
proof fn lemma_escape_byte_leads()
    ensures
        forall|k: int| 1 <= k < 7 ==> highlight_start()[k] != 0x1b,
        forall|k: int| 1 <= k < 4 ==> highlight_end()[k] != 0x1b,
{
}

/// A `token` that begins inside `head` and has the escape byte at its start
/// only does not run on into a continuation that starts with the escape byte.
proof fn lemma_token_stays_in_head(head: Seq<u8>, rest: Seq<u8>, token: Seq<u8>, i: int)
    requires
        0 <= i < head.len(),
        rest.len() > 0,
        rest[0] == 0x1b,
        forall|k: int| 1 <= k < token.len() ==> token[k] != 0x1b,
        starts_with((head + rest).skip(i), token),
    ensures
        starts_with(head.skip(i), token),
{
    let text = head + rest;
    let cut = text.skip(i).subrange(0, token.len() as int);
    if i + token.len() <= head.len() {
        assert(head.skip(i).subrange(0, token.len() as int) =~= cut);
    } else {
        let r = head.len() - i;
        assert(cut[r] == text[head.len() as int]);
        assert(token[r] == 0x1b);
    }
}

/// No escape sequence begins before `idx` in a decorated line, when the line
/// itself holds none.
proof fn lemma_no_token_before(line: Seq<u8>, idx: int, i: int)
    requires
        !holds_token(line),
        0 <= i < idx < line.len(),
    ensures
        !token_at(decorate(line, idx), i),
{
    let head = line.subrange(0, idx);
    let rest = highlight_start() + line.subrange(idx, idx + 1) + highlight_end() + line.subrange(
        idx + 1,
        line.len() as int,
    );
    assert(decorate(line, idx) =~= head + rest);
    assert(rest[0] == 0x1b);
    assert(!token_at(line, i));
    lemma_escape_byte_leads();
    if starts_with((head + rest).skip(i), highlight_start()) {
        lemma_token_stays_in_head(head, rest, highlight_start(), i);
        assert(line.skip(i).subrange(0, 7) =~= head.skip(i).subrange(0, 7));
    }
    if starts_with((head + rest).skip(i), highlight_end()) {
        lemma_token_stays_in_head(head, rest, highlight_end(), i);
        assert(line.skip(i).subrange(0, 4) =~= head.skip(i).subrange(0, 4));
    }
}

/// Stripping a decorated line gives the line back.
pub proof fn lemma_strip_decorated(line: Seq<u8>, idx: int)
    requires
        !holds_token(line),
        0 <= idx < line.len(),
    ensures
        strip_tokens(decorate(line, idx)) == line,
{
    let start = highlight_start();
    let end = highlight_end();
    let head = line.subrange(0, idx);
    let mid = line.subrange(idx, idx + 1);
    let tail = line.subrange(idx + 1, line.len() as int);
    let text = decorate(line, idx);
    let after_head = start + mid + end + tail;
    let after_start = mid + end + tail;
    let after_mid = end + tail;
    assert(text =~= head + after_head);
    assert forall|i: int| 0 <= i < head.len() implies !token_at(head + after_head, i) by {
        lemma_no_token_before(line, idx, i);
    }
    lemma_strip_prefix(head, after_head);
    // the start sequence goes
    assert(after_head.subrange(0, 7) =~= start);
    assert(after_head.skip(7) =~= after_start);
    assert(strip_tokens(after_head) == strip_tokens(after_start));
    // the decorated byte stays: no sequence begins at it
    assert(after_start[1] == 0x1b);
    if starts_with(after_start, start) {
        assert(after_start.subrange(0, 7)[1] == start[1]);
    }
    if starts_with(after_start, end) {
        assert(after_start.subrange(0, 4)[1] == end[1]);
    }
    assert(after_start.skip(1) =~= after_mid);
    assert(strip_tokens(after_start) == seq![after_start[0]] + strip_tokens(after_mid));
    // the end sequence goes
    if starts_with(after_mid, start) {
        assert(after_mid.subrange(0, 7)[2] == start[2]);
        assert(after_mid[2] == end[2]);
    }
    assert(after_mid.subrange(0, 4) =~= end);
    assert(after_mid.skip(4) =~= tail);
    assert(strip_tokens(after_mid) == strip_tokens(tail));
    // the rest of the line holds no sequence
    assert forall|i: int| !token_at(tail, i) by {
        if 0 <= i <= tail.len() {
            assert(!token_at(line, idx + 1 + i));
            assert(tail.skip(i) =~= line.skip(idx + 1 + i));
        }
    }
    lemma_strip_plain(tail);
    assert(head + (seq![after_start[0]] + tail) =~= line);
}

/// Whatever the cache holds, taking the escape sequences out of what the
/// highlighter renders for a line gives the line back, byte for byte, as long
/// as the line itself holds neither sequence.
pub proof fn lemma_strip_restores_line(line: Seq<u8>, cache: Option<(u8, usize)>)
    requires
        line.len() <= usize::MAX,
        !holds_token(line),
    ensures
        strip_tokens(spec_highlight(line, cache)) == line,
{
    lemma_strip_plain(line);
    let out = spec_highlight(line, cache);
    if out != line {
        let (bracket, pos) = cache->0;
        let found = crate::bracket::spec_find_matching_bracket(line, pos as int, bracket);
        let counterpart = found->0;
        let idx = counterpart.1 as int;
        crate::bracket::lemma_find_in_range(line, pos as int, bracket);
        lemma_strip_decorated(line, idx);
    }
}

} // verus!
