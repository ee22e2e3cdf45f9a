use line_highlight::bracket;

#[test]
fn find_matching_bracket() {
    assert_eq!(bracket::find_matching_bracket("(...", 0, b'('), None);
    assert_eq!(bracket::find_matching_bracket("...)", 3, b')'), None);

    assert_eq!(bracket::find_matching_bracket("()..", 0, b'('), Some((b')', 1)));
    assert_eq!(bracket::find_matching_bracket("(..)", 0, b'('), Some((b')', 3)));

    assert_eq!(bracket::find_matching_bracket("..()", 3, b')'), Some((b'(', 2)));
    assert_eq!(bracket::find_matching_bracket("(..)", 3, b')'), Some((b'(', 0)));

    assert_eq!(bracket::find_matching_bracket("(())", 0, b'('), Some((b')', 3)));
    assert_eq!(bracket::find_matching_bracket("(())", 3, b')'), Some((b'(', 0)));
}

#[test]
fn check_bracket() {
    assert_eq!(bracket::check_bracket(")...", 0), None);
    assert_eq!(bracket::check_bracket("(...", 2), None);
    assert_eq!(bracket::check_bracket("...(", 3), None);
    assert_eq!(bracket::check_bracket("...(", 4), None);
    assert_eq!(bracket::check_bracket("..).", 4), None);

    assert_eq!(bracket::check_bracket("(...", 0), Some((b'(', 0)));
    assert_eq!(bracket::check_bracket("(...", 1), Some((b'(', 0)));
    assert_eq!(bracket::check_bracket("...)", 3), Some((b')', 3)));
    assert_eq!(bracket::check_bracket("...)", 4), Some((b')', 3)));
}

#[test]
fn matching_bracket() {
    assert_eq!(bracket::matching_bracket(b'('), b')');
    assert_eq!(bracket::matching_bracket(b')'), b'(');
}

#[test]
fn is_open_bracket() {
    assert!(bracket::is_open_bracket(b'('));
    assert!(bracket::is_close_bracket(b')'));
}

#[test]
fn bracket_constants_are_the_ascii_brackets() {
    assert_eq!(bracket::OPEN_BRACE, b'{');
    assert_eq!(bracket::CLOSE_BRACE, b'}');
    assert_eq!(bracket::OPEN_SQUARE, b'[');
    assert_eq!(bracket::CLOSE_SQUARE, b']');
    assert_eq!(bracket::OPEN_PAREN, b'(');
    assert_eq!(bracket::CLOSE_PAREN, b')');
}

#[test]
fn matching_bracket_pairs_every_kind() {
    assert_eq!(bracket::matching_bracket(b'{'), b'}');
    assert_eq!(bracket::matching_bracket(b'}'), b'{');
    assert_eq!(bracket::matching_bracket(b'['), b']');
    assert_eq!(bracket::matching_bracket(b']'), b'[');
    assert_eq!(bracket::matching_bracket(b'a'), b'a');
    assert_eq!(bracket::matching_bracket(0), 0);
    assert_eq!(bracket::matching_bracket(255), 255);
}

#[test]
fn open_and_close_classification() {
    for b in 0..=255u8 {
        let open = b == b'{' || b == b'[' || b == b'(';
        let close = b == b'}' || b == b']' || b == b')';
        assert_eq!(bracket::is_open_bracket(b), open);
        assert_eq!(bracket::is_close_bracket(b), close);
    }
}

#[test]
fn find_skips_nested_pairs() {
    let line = "(a (b) c)";
    assert_eq!(bracket::find_matching_bracket(line, 0, b'('), Some((b')', 8)));
    assert_eq!(bracket::find_matching_bracket(line, 3, b'('), Some((b')', 5)));
    assert_eq!(bracket::find_matching_bracket(line, 5, b')'), Some((b'(', 3)));
    assert_eq!(bracket::find_matching_bracket(line, 8, b')'), Some((b'(', 0)));
}

#[test]
fn find_ignores_other_kinds_of_bracket() {
    assert_eq!(bracket::find_matching_bracket("([)]", 0, b'('), Some((b')', 2)));
    assert_eq!(bracket::find_matching_bracket("([)]", 1, b'['), Some((b']', 3)));
    assert_eq!(bracket::find_matching_bracket("{[}", 0, b'{'), Some((b'}', 2)));
    assert_eq!(bracket::find_matching_bracket("{[}", 1, b'['), None);
}

#[test]
fn find_is_symmetric_on_pairs() {
    let line = "{[()()]}(]";
    for (pos, b) in line.bytes().enumerate() {
        if let Some((m, idx)) = bracket::find_matching_bracket(line, pos, b) {
            assert_eq!(m, bracket::matching_bracket(b));
            assert_eq!(line.as_bytes()[idx], m);
            assert_eq!(bracket::find_matching_bracket(line, idx, m), Some((b, pos)));
        }
    }
    assert_eq!(bracket::find_matching_bracket(line, 0, b'{'), Some((b'}', 7)));
    assert_eq!(bracket::find_matching_bracket(line, 8, b'('), None);
    assert_eq!(bracket::find_matching_bracket(line, 9, b']'), None);
}

#[test]
fn find_with_anchor_out_of_range() {
    assert_eq!(bracket::find_matching_bracket("", 0, b'('), None);
    assert_eq!(bracket::find_matching_bracket("", 0, b')'), None);
    assert_eq!(bracket::find_matching_bracket("()", 2, b'('), None);
    assert_eq!(bracket::find_matching_bracket("()", 7, b'('), None);
    assert_eq!(bracket::find_matching_bracket("()", usize::MAX, b'('), None);
    // a closing anchor past the end searches the whole line
    assert_eq!(bracket::find_matching_bracket("(..", 3, b')'), Some((b'(', 0)));
    assert_eq!(bracket::find_matching_bracket("(..", 9, b')'), Some((b'(', 0)));
    assert_eq!(bracket::find_matching_bracket("(.)", usize::MAX, b')'), None);
    assert_eq!(bracket::find_matching_bracket(")", 0, b')'), None);
}

#[test]
fn find_for_a_byte_that_is_no_bracket() {
    // such a byte is its own counterpart and is searched backward
    assert_eq!(bracket::find_matching_bracket("a.a.", 2, b'a'), Some((b'a', 0)));
    assert_eq!(bracket::find_matching_bracket("a.a.", 4, b'a'), Some((b'a', 2)));
    assert_eq!(bracket::find_matching_bracket("....", 3, b'a'), None);
}

#[test]
fn find_in_multibyte_text() {
    let line = "é(ü)";
    assert_eq!(line.len(), 6);
    assert_eq!(bracket::find_matching_bracket(line, 2, b'('), Some((b')', 5)));
    assert_eq!(bracket::find_matching_bracket(line, 5, b')'), Some((b'(', 2)));
}

#[test]
fn check_on_empty_and_single_byte_lines() {
    assert_eq!(bracket::check_bracket("", 0), None);
    assert_eq!(bracket::check_bracket("", 5), None);
    assert_eq!(bracket::check_bracket("(", 0), None);
    assert_eq!(bracket::check_bracket("(", 1), None);
    assert_eq!(bracket::check_bracket(")", 0), None);
    // past the end only the last byte is looked at, and index 0 is accepted
    assert_eq!(bracket::check_bracket(")", 1), Some((b')', 0)));
    assert_eq!(bracket::check_bracket(")", usize::MAX), Some((b')', 0)));
}

#[test]
fn check_looks_under_the_cursor_first() {
    assert_eq!(bracket::check_bracket("()()", 1), Some((b')', 1)));
    assert_eq!(bracket::check_bracket("()()", 2), Some((b'(', 2)));
    assert_eq!(bracket::check_bracket("a[b]c", 2), Some((b'[', 1)));
    assert_eq!(bracket::check_bracket("a[b]c", 4), Some((b']', 3)));
    assert_eq!(bracket::check_bracket("a{b}c", 1), Some((b'{', 1)));
    assert_eq!(bracket::check_bracket("a{b}c", 3), Some((b'}', 3)));
}

#[test]
fn check_stops_at_a_bracket_that_cannot_anchor() {
    // the closing bracket at index 0 is under the cursor: the search ends there
    assert_eq!(bracket::check_bracket(")(..", 0), None);
    // before the cursor, a closing bracket at index 0 is rejected too
    assert_eq!(bracket::check_bracket(").", 1), None);
    // an opening bracket as last byte under the cursor ends the search
    assert_eq!(bracket::check_bracket("()(", 2), None);
}

#[test]
fn check_in_multibyte_text() {
    let line = "é(ü)";
    assert_eq!(bracket::check_bracket(line, 2), Some((b'(', 2)));
    assert_eq!(bracket::check_bracket(line, 3), Some((b'(', 2)));
    assert_eq!(bracket::check_bracket(line, 4), None);
    assert_eq!(bracket::check_bracket(line, 6), Some((b')', 5)));
}
