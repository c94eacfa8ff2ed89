use asciiquarium::color::Color;
use asciiquarium::shape::{Frame, Shape};

#[test]
fn parse_pads_rows_to_widest_line() {
    let f = Frame::parse("ab\nc", None, None);
    assert_eq!(f.width, 2);
    assert_eq!(f.height, 2);
    assert_eq!(f.cells[0], vec![Some('a'), Some('b')]);
    assert_eq!(f.cells[1], vec![Some('c'), None]);
    assert_eq!(f.colors[1], vec![None, None]);
}

#[test]
fn parse_applies_mask_letters_to_visible_cells() {
    let f = Frame::parse("x y", Some("RrG"), Some(' '));
    assert_eq!(f.cells[0], vec![Some('x'), None, Some('y')]);
    assert_eq!(f.colors[0], vec![Some(Color::BrightRed), None, Some(Color::BrightGreen)]);
}

#[test]
fn parse_mask_shorter_than_art_leaves_default() {
    let f = Frame::parse("abc\nde", Some("W"), None);
    assert_eq!(f.colors[0], vec![Some(Color::White), None, None]);
    assert_eq!(f.colors[1], vec![None, None, None]);
}

#[test]
fn parse_trailing_newline_adds_no_row() {
    let f = Frame::parse("a\n", None, None);
    assert_eq!(f.height, 1);
    let g = Frame::parse("a\n\nb", None, None);
    assert_eq!(g.height, 3);
    assert_eq!(g.cells[1], vec![None]);
}

#[test]
fn parse_strips_carriage_return_before_newline() {
    let f = Frame::parse("ab\r\ncd", None, None);
    assert_eq!(f.width, 2);
    assert_eq!(f.cells[0], vec![Some('a'), Some('b')]);
}

#[test]
fn parse_counts_width_in_bytes() {
    // 'é' takes two bytes, so the frame is three columns wide.
    let f = Frame::parse("\u{e9}x", None, None);
    assert_eq!(f.width, 3);
    assert_eq!(f.cells[0], vec![Some('\u{e9}'), Some('x'), None]);
}

#[test]
fn parse_empty_art() {
    let f = Frame::parse("", Some("RRR"), None);
    assert_eq!(f.width, 0);
    assert_eq!(f.height, 0);
    assert!(f.cells.is_empty());
}

#[test]
fn question_mark_transparency() {
    let f = Frame::parse("a?b", None, Some('?'));
    assert_eq!(f.cells[0], vec![Some('a'), None, Some('b')]);
}

#[test]
fn shape_multi_keeps_order() {
    let s = Shape::multi(vec![("1", None), ("22", Some("rr"))], None);
    assert_eq!(s.frames.len(), 2);
    assert_eq!(s.frames[0].width, 1);
    assert_eq!(s.frames[1].colors[0], vec![Some(Color::Red), Some(Color::Red)]);
    let single = Shape::single("o", Some("y"), None);
    assert_eq!(single.frames.len(), 1);
    assert_eq!(single.frames[0].colors[0], vec![Some(Color::Yellow)]);
}

#[test]
fn parsed_frames_are_grids_with_colours_only_on_visible_cells() {
    let f = Frame::parse("ab\n?cde\n\nx", Some("RG\nyyyy\nB\nr"), Some('?'));
    assert_eq!(f.height, 4);
    assert_eq!(f.width, 4);
    assert_eq!(f.cells.len(), 4);
    assert_eq!(f.colors.len(), 4);
    for r in 0..4 {
        assert_eq!(f.cells[r].len(), 4);
        assert_eq!(f.colors[r].len(), 4);
        for c in 0..4 {
            if f.colors[r][c].is_some() {
                assert!(f.cells[r][c].is_some());
            }
        }
    }
    assert_eq!(f.cells[1][0], None);
    assert_eq!(f.colors[1][0], None);
    assert_eq!(f.cells[2], vec![None, None, None, None]);
}
