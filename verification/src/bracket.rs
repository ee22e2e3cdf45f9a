//! Bracket classification and the nested search for a bracket's counterpart.

use vstd::prelude::*;
use vstd::string::*;

verus! {

/// `{`
pub const OPEN_BRACE: u8 = 0x7b;

/// `}`
pub const CLOSE_BRACE: u8 = 0x7d;

/// `[`
pub const OPEN_SQUARE: u8 = 0x5b;

/// `]`
pub const CLOSE_SQUARE: u8 = 0x5d;

/// `(`
pub const OPEN_PAREN: u8 = 0x28;

/// `)`
pub const CLOSE_PAREN: u8 = 0x29;

/// Whether `b` is one of `{`, `[`, `(`.
pub open spec fn spec_is_open_bracket(b: u8) -> bool {
    b == OPEN_BRACE || b == OPEN_SQUARE || b == OPEN_PAREN
}

/// Whether `b` is one of `}`, `]`, `)`.
pub open spec fn spec_is_close_bracket(b: u8) -> bool {
    b == CLOSE_BRACE || b == CLOSE_SQUARE || b == CLOSE_PAREN
}

/// Whether `b` is one of the six bracket bytes.
pub open spec fn spec_is_bracket(b: u8) -> bool {
    spec_is_open_bracket(b) || spec_is_close_bracket(b)
}

/// The counterpart of a bracket; any other byte is its own counterpart.
pub open spec fn spec_matching_bracket(b: u8) -> u8 {
    if b == OPEN_BRACE {
        CLOSE_BRACE
    } else if b == CLOSE_BRACE {
        OPEN_BRACE
    } else if b == OPEN_SQUARE {
        CLOSE_SQUARE
    } else if b == CLOSE_SQUARE {
        OPEN_SQUARE
    } else if b == OPEN_PAREN {
        CLOSE_PAREN
    } else if b == CLOSE_PAREN {
        OPEN_PAREN
    } else {
        b
    }
}

/// Returns the counterpart of `bracket`, or `bracket` itself when it is no bracket.
#[verifier::when_used_as_spec(spec_matching_bracket)]
pub fn matching_bracket(bracket: u8) -> (m: u8)
    ensures
        m == spec_matching_bracket(bracket),
{
    if bracket == OPEN_BRACE {
        CLOSE_BRACE
    } else if bracket == CLOSE_BRACE {
        OPEN_BRACE
    } else if bracket == OPEN_SQUARE {
        CLOSE_SQUARE
    } else if bracket == CLOSE_SQUARE {
        OPEN_SQUARE
    } else if bracket == OPEN_PAREN {
        CLOSE_PAREN
    } else if bracket == CLOSE_PAREN {
        OPEN_PAREN
    } else {
        bracket
    }
}

/// Tells whether `bracket` opens a pair.
#[verifier::when_used_as_spec(spec_is_open_bracket)]
pub fn is_open_bracket(bracket: u8) -> (r: bool)
    ensures
        r == spec_is_open_bracket(bracket),
{
    bracket == OPEN_BRACE || bracket == OPEN_SQUARE || bracket == OPEN_PAREN
}

/// Tells whether `bracket` closes a pair.
#[verifier::when_used_as_spec(spec_is_close_bracket)]
pub fn is_close_bracket(bracket: u8) -> (r: bool)
    ensures
        r == spec_is_close_bracket(bracket),
{
    bracket == CLOSE_BRACE || bracket == CLOSE_SQUARE || bracket == CLOSE_PAREN
}

/// How the count of unmatched brackets changes when a search that started from
/// `bracket` passes over `byte`: the counterpart closes one level, another
/// `bracket` opens one, any other byte leaves the count alone.
pub open spec fn weight(byte: u8, bracket: u8) -> int {
    if byte == spec_matching_bracket(bracket) {
        -1
    } else if byte == bracket {
        1
    } else {
        0
    }
}

/// The sum of the weights of `line[lo..hi]` (`hi` excluded) for a search that
/// started from `bracket`.
pub open spec fn depth(line: Seq<u8>, bracket: u8, lo: int, hi: int) -> int
    decreases hi - lo,
{
    if hi <= lo {
        0
    } else {
        depth(line, bracket, lo, hi - 1) + weight(line[hi - 1], bracket)
    }
}

/// The count of unmatched brackets of a forward search anchored at `pos`, once
/// it has passed over the byte at `k`.
pub open spec fn unmatched_forward(line: Seq<u8>, bracket: u8, pos: int, k: int) -> int {
    1 + depth(line, bracket, pos + 1, k + 1)
}

/// The count of unmatched brackets of a backward search that started just
/// below `end`, once it has passed over the byte at `k`.
pub open spec fn unmatched_backward(line: Seq<u8>, bracket: u8, end: int, k: int) -> int {
    1 + depth(line, bracket, k, end)
}

/// Where a backward search anchored at `pos` starts: at `pos`, or at the end
/// of the line when `pos` lies beyond it.
pub open spec fn backward_start(line: Seq<u8>, pos: int) -> int {
    if pos < line.len() {
        pos
    } else {
        line.len() as int
    }
}

/// `idx` is the first position after `pos` at which the forward count of
/// unmatched brackets reaches zero.
pub open spec fn closes_forward(line: Seq<u8>, pos: int, bracket: u8, idx: int) -> bool {
    &&& 0 <= pos < idx < line.len()
    &&& unmatched_forward(line, bracket, pos, idx) == 0
    &&& forall|k: int| pos < k < idx ==> #[trigger] unmatched_forward(line, bracket, pos, k) > 0
}

/// `idx` is the first position before `pos` at which the backward count of
/// unmatched brackets reaches zero.
pub open spec fn closes_backward(line: Seq<u8>, pos: int, bracket: u8, idx: int) -> bool {
    let end = backward_start(line, pos);
    &&& 0 <= idx < end
    &&& unmatched_backward(line, bracket, end, idx) == 0
    &&& forall|k: int| idx < k < end ==> #[trigger] unmatched_backward(line, bracket, end, k) > 0
}

/// `idx` is the position of the counterpart of the `bracket` anchored at
/// `pos`: the search runs forward for an opening bracket, backward for any
/// other byte.
pub open spec fn is_counterpart(line: Seq<u8>, pos: int, bracket: u8, idx: int) -> bool {
    if spec_is_open_bracket(bracket) {
        closes_forward(line, pos, bracket, idx)
    } else {
        closes_backward(line, pos, bracket, idx)
    }
}

/// The counterpart byte and its position for the `bracket` anchored at `pos`,
/// if the line holds one.
pub open spec fn spec_find_matching_bracket(line: Seq<u8>, pos: int, bracket: u8) -> Option<
    (u8, usize),
> {
    if exists|idx: int| is_counterpart(line, pos, bracket, idx) {
        Some(
            (
                spec_matching_bracket(bracket),
                (choose|idx: int| is_counterpart(line, pos, bracket, idx)) as usize,
            ),
        )
    } else {
        None
    }
}

/// A range's depth is the weight of its first byte plus the depth of the rest.
pub proof fn lemma_depth_first(line: Seq<u8>, bracket: u8, lo: int, hi: int)
    requires
        lo < hi,
    ensures
        depth(line, bracket, lo, hi) == weight(line[lo], bracket) + depth(
            line,
            bracket,
            lo + 1,
            hi,
        ),
    decreases hi - lo,
{
    if lo + 1 < hi {
        lemma_depth_first(line, bracket, lo, hi - 1);
    } else {
        assert(depth(line, bracket, lo, hi - 1) == 0);
        assert(depth(line, bracket, lo + 1, hi) == 0);
    }
}

/// The depth of a range is the sum of the depths of its two parts.
pub proof fn lemma_depth_split(line: Seq<u8>, bracket: u8, lo: int, mid: int, hi: int)
    requires
        lo <= mid <= hi,
    ensures
        depth(line, bracket, lo, hi) == depth(line, bracket, lo, mid) + depth(
            line,
            bracket,
            mid,
            hi,
        ),
    decreases hi - mid,
{
    if mid < hi {
        lemma_depth_split(line, bracket, lo, mid, hi - 1);
    }
}

/// Seen from the counterpart of a bracket, every range has the opposite depth.
pub proof fn lemma_depth_mirror(line: Seq<u8>, bracket: u8, lo: int, hi: int)
    requires
        spec_is_bracket(bracket),
    ensures
        depth(line, spec_matching_bracket(bracket), lo, hi) == -depth(line, bracket, lo, hi),
    decreases hi - lo,
{
    if lo < hi {
        lemma_depth_mirror(line, bracket, lo, hi - 1);
    }
}

/// At most one position is the counterpart of the bracket anchored at `pos`.
pub proof fn lemma_counterpart_unique(line: Seq<u8>, pos: int, bracket: u8, i: int, j: int)
    requires
        is_counterpart(line, pos, bracket, i),
        is_counterpart(line, pos, bracket, j),
    ensures
        i == j,
{
}

/// What lies between a bracket and its counterpart is balanced: it holds as
/// many brackets of the kind as counterparts of it.
pub proof fn lemma_between_is_balanced(line: Seq<u8>, pos: int, bracket: u8, idx: int)
    requires
        is_counterpart(line, pos, bracket, idx),
    ensures
        spec_is_open_bracket(bracket) ==> depth(line, bracket, pos + 1, idx) == 0,
        !spec_is_open_bracket(bracket) ==> depth(
            line,
            bracket,
            idx + 1,
            backward_start(line, pos),
        ) == 0,
{
    if spec_is_open_bracket(bracket) {
        if pos + 1 < idx {
            assert(unmatched_forward(line, bracket, pos, idx - 1) > 0);
        }
    } else {
        let end = backward_start(line, pos);
        if idx + 1 < end {
            assert(unmatched_backward(line, bracket, end, idx + 1) > 0);
        }
        lemma_depth_first(line, bracket, idx, end);
    }
}

/// A counterpart that is found lies in the line and holds the counterpart byte.
pub proof fn lemma_find_in_range(line: Seq<u8>, pos: int, bracket: u8)
    requires
        line.len() <= usize::MAX,
    ensures
        spec_find_matching_bracket(line, pos, bracket) matches Some((m, idx)) ==> {
            &&& m == spec_matching_bracket(bracket)
            &&& idx < line.len()
            &&& line[idx as int] == m
            &&& is_counterpart(line, pos, bracket, idx as int)
        },
{
    if exists|idx: int| is_counterpart(line, pos, bracket, idx) {
        let idx = choose|idx: int| is_counterpart(line, pos, bracket, idx);
        assert(0 <= idx < line.len());
        lemma_between_is_balanced(line, pos, bracket, idx);
        if !spec_is_open_bracket(bracket) {
            lemma_depth_first(line, bracket, idx, backward_start(line, pos));
        }
        assert(weight(line[idx], bracket) == -1);
    }
}

/// Matching is symmetric: when the bracket at `pos` has its counterpart at
/// `idx`, the bracket at `idx` has its counterpart at `pos`, so that a search
/// from either end of a pair returns the other end.
pub proof fn lemma_counterpart_symmetric(line: Seq<u8>, pos: int, bracket: u8, idx: int)
    requires
        spec_is_bracket(bracket),
        0 <= pos < line.len(),
        line[pos] == bracket,
        is_counterpart(line, pos, bracket, idx),
    ensures
        line[idx] == spec_matching_bracket(bracket),
        is_counterpart(line, idx, spec_matching_bracket(bracket), pos),
        spec_find_matching_bracket(line, pos, bracket) == Some(
            (spec_matching_bracket(bracket), idx as usize),
        ),
        spec_find_matching_bracket(line, idx, spec_matching_bracket(bracket)) == Some(
            (bracket, pos as usize),
        ),
{
    let other = spec_matching_bracket(bracket);
    if spec_is_open_bracket(bracket) {
        // depth of line[pos + 1..idx] is zero, and no prefix of it is negative
        if pos + 1 < idx {
            assert(unmatched_forward(line, bracket, pos, idx - 1) > 0);
        }
        assert(depth(line, bracket, pos + 1, idx) == 0);
        assert(line[idx] == other);
        assert forall|k: int| pos < k < idx implies #[trigger] unmatched_backward(
            line,
            other,
            idx,
            k,
        ) > 0 by {
            lemma_depth_split(line, bracket, pos + 1, k, idx);
            lemma_depth_mirror(line, bracket, k, idx);
            if pos + 1 < k {
                assert(unmatched_forward(line, bracket, pos, k - 1) > 0);
            }
        }
        lemma_depth_first(line, bracket, pos, idx);
        lemma_depth_mirror(line, bracket, pos, idx);
        assert(closes_backward(line, idx, other, pos));
    } else {
        // depth of line[idx + 1..pos] is zero, and no suffix of it is negative
        if idx + 1 < pos {
            assert(unmatched_backward(line, bracket, pos, idx + 1) > 0);
        }
        lemma_depth_first(line, bracket, idx, pos);
        assert(depth(line, bracket, idx + 1, pos) == 0);
        assert(line[idx] == other);
        assert forall|k: int| idx < k < pos implies #[trigger] unmatched_forward(
            line,
            other,
            idx,
            k,
        ) > 0 by {
            lemma_depth_split(line, bracket, idx + 1, k + 1, pos);
            lemma_depth_mirror(line, bracket, idx + 1, k + 1);
            if k + 1 < pos {
                assert(unmatched_backward(line, bracket, pos, k + 1) > 0);
            }
        }
        lemma_depth_mirror(line, bracket, idx + 1, pos + 1);
        assert(closes_forward(line, idx, other, pos));
    }
    assert(is_counterpart(line, idx, other, pos));
    let there = choose|i: int| is_counterpart(line, pos, bracket, i);
    lemma_counterpart_unique(line, pos, bracket, idx, there);
    let back = choose|i: int| is_counterpart(line, idx, other, i);
    lemma_counterpart_unique(line, idx, other, pos, back);
}

/// Searches the line for the counterpart of the `bracket` anchored at `pos`,
/// skipping over nested pairs: forward from `pos + 1` for an opening bracket,
/// backward from `pos - 1` otherwise. A `pos` beyond the line is read as its
/// end.
pub fn find_matching_bracket(line: &str, pos: usize, bracket: u8) -> (r: Option<(u8, usize)>)
    ensures
        r == spec_find_matching_bracket(line.spec_bytes(), pos as int, bracket),
        r matches Some((m, idx)) ==> {
            &&& m == spec_matching_bracket(bracket)
            &&& is_counterpart(line.spec_bytes(), pos as int, bracket, idx as int)
            &&& line.spec_bytes()[idx as int] == m
        },
        r is None ==> forall|idx: int| !is_counterpart(line.spec_bytes(), pos as int, bracket, idx),
{
    let matching = matching_bracket(bracket);
    let bytes = line.as_bytes();
    let len = bytes.len();
    // Wide enough for one more than the length of any line.
    let mut unmatched: u128 = 1;
    if is_open_bracket(bracket) {
        if pos >= len {
            return None;
        }
        let mut idx: usize = pos + 1;
        while idx < len
            invariant
                pos < idx <= len,
                len == bytes@.len(),
                bytes@ == line.spec_bytes(),
                matching == spec_matching_bracket(bracket),
                spec_is_open_bracket(bracket),
                1 <= unmatched <= idx - pos,
                unmatched as int == 1 + depth(bytes@, bracket, pos + 1, idx as int),
                forall|k: int|
                    pos < k < idx ==> #[trigger] unmatched_forward(bytes@, bracket, pos as int, k)
                        > 0,
            decreases len - idx,
        {
            let b = bytes[idx];
            if b == matching {
                unmatched -= 1;
                if unmatched == 0 {
                    proof {
                        let found = idx as int;
                        assert(is_counterpart(bytes@, pos as int, bracket, found));
                        let chosen = choose|i: int| is_counterpart(bytes@, pos as int, bracket, i);
                        lemma_counterpart_unique(bytes@, pos as int, bracket, found, chosen);
                    }
                    return Some((matching, idx));
                }
            } else if b == bracket {
                unmatched += 1;
            }
            idx += 1;
        }
        None
    } else {
        let mut idx: usize = if pos < len {
            pos
        } else {
            len
        };
        let end = idx;
        while idx > 0
            invariant
                idx <= end <= len,
                end as int == backward_start(bytes@, pos as int),
                len == bytes@.len(),
                bytes@ == line.spec_bytes(),
                matching == spec_matching_bracket(bracket),
                !spec_is_open_bracket(bracket),
                1 <= unmatched <= 1 + end - idx,
                unmatched as int == 1 + depth(bytes@, bracket, idx as int, end as int),
                forall|k: int|
                    idx <= k < end ==> #[trigger] unmatched_backward(
                        bytes@,
                        bracket,
                        end as int,
                        k,
                    ) > 0,
            decreases idx,
        {
            let b = bytes[idx - 1];
            proof {
                lemma_depth_first(bytes@, bracket, idx - 1, end as int);
            }
            if b == matching {
                unmatched -= 1;
                if unmatched == 0 {
                    proof {
                        let found = idx - 1;
                        assert(is_counterpart(bytes@, pos as int, bracket, found));
                        let chosen = choose|i: int| is_counterpart(bytes@, pos as int, bracket, i);
                        lemma_counterpart_unique(bytes@, pos as int, bracket, found, chosen);
                    }
                    return Some((matching, idx - 1));
                }
            } else if b == bracket {
                unmatched += 1;
            }
            idx -= 1;
        }
        None
    }
}

/// The bracket at `idx` together with `idx`, if a search can start from it: a
/// closing bracket that is not the first byte, or an opening bracket that is
/// not the last.
pub open spec fn anchor_at(line: Seq<u8>, idx: int) -> Option<(u8, usize)> {
    let b = line[idx];
    if spec_is_close_bracket(b) && idx > 0 {
        Some((b, idx as usize))
    } else if spec_is_open_bracket(b) && idx + 1 < line.len() {
        Some((b, idx as usize))
    } else {
        None
    }
}

/// The bracket next to the cursor at `pos`, with its position.
///
/// A cursor at or past the end of the line sees only the last byte, and only a
/// closing bracket there. A cursor inside the line sees the byte under it and,
/// when that is no bracket, the byte before it.
pub open spec fn spec_check_bracket(line: Seq<u8>, pos: int) -> Option<(u8, usize)> {
    let last = line.len() - 1;
    if line.len() == 0 {
        None
    } else if pos >= line.len() {
        if spec_is_close_bracket(line[last]) {
            Some((line[last], last as usize))
        } else {
            None
        }
    } else if spec_is_bracket(line[pos]) {
        anchor_at(line, pos)
    } else if pos > 0 {
        anchor_at(line, pos - 1)
    } else {
        None
    }
}

/// Looks for a bracket under the cursor at byte offset `pos`, then just
/// before it.
pub fn check_bracket(line: &str, pos: usize) -> (r: Option<(u8, usize)>)
    ensures
        r == spec_check_bracket(line.spec_bytes(), pos as int),
        r matches Some((b, idx)) ==> {
            &&& spec_is_bracket(b)
            &&& idx < line.spec_bytes().len()
            &&& line.spec_bytes()[idx as int] == b
        },
{
    let bytes = line.as_bytes();
    let len = bytes.len();
    if len == 0 {
        return None;
    }
    if pos >= len {
        let last = len - 1;  // before cursor
        let b = bytes[last];  // previous byte
        if is_close_bracket(b) {
            Some((b, last))
        } else {
            None
        }
    } else {
        let mut idx = pos;
        let mut under_cursor = true;
        loop
            invariant
                len == bytes@.len(),
                bytes@ == line.spec_bytes(),
                pos < len,
                under_cursor ==> idx == pos,
                !under_cursor ==> idx + 1 == pos && !spec_is_bracket(bytes@[pos as int]),
            decreases
                    (if under_cursor {
                        1int
                    } else {
                        0int
                    }),
        {
            let b = bytes[idx];
            if is_close_bracket(b) {
                return if idx == 0 {
                    None
                } else {
                    Some((b, idx))
                };
            } else if is_open_bracket(b) {
                return if idx + 1 == len {
                    None
                } else {
                    Some((b, idx))
                };
            } else if under_cursor && idx > 0 {
                under_cursor = false;
                idx -= 1;  // or before cursor
            } else {
                return None;
            }
        }
    }
}

} // verus!
