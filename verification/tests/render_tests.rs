use asciiquarium::color::Color;
use asciiquarium::renderer::{Cell, DrawOp, FrameBuffer, Renderer};

#[test]
fn new_buffer_is_empty() {
    let fb = FrameBuffer::new(3, 2);
    assert_eq!(fb.cells.len(), 2);
    assert_eq!(fb.cells[0], vec![None, None, None]);
}

#[test]
fn set_writes_inside_and_ignores_outside() {
    let mut fb = FrameBuffer::new(3, 2);
    fb.set(1, 1, 'x', Color::Red);
    fb.set(-1, 0, 'y', Color::Red);
    fb.set(3, 0, 'z', Color::Red);
    fb.set(0, 2, 'w', Color::Red);
    assert_eq!(fb.cells[1][1], Some(Cell { ch: 'x', color: Color::Red }));
    let count = fb.cells.iter().flatten().filter(|c| c.is_some()).count();
    assert_eq!(count, 1);
}

#[test]
fn first_draw_emits_every_cell() {
    let mut fb = FrameBuffer::new(2, 1);
    fb.set(0, 0, 'a', Color::Red);
    let mut r = Renderer::new();
    let ops = r.draw(&fb);
    // The empty cell differs from nothing known only when something is
    // there: an empty previous screen counts as empty cells.
    assert_eq!(
        ops,
        vec![DrawOp::MoveTo(0, 0), DrawOp::SetColor(Color::Red), DrawOp::Print('a')]
    );
}

#[test]
fn unchanged_frame_emits_nothing() {
    let mut fb = FrameBuffer::new(2, 2);
    fb.set(1, 0, 'a', Color::Blue);
    let mut r = Renderer::new();
    r.draw(&fb);
    assert!(r.draw(&fb).is_empty());
}

#[test]
fn color_is_set_only_when_it_changes() {
    let mut fb = FrameBuffer::new(3, 1);
    fb.set(0, 0, 'a', Color::Green);
    fb.set(1, 0, 'b', Color::Green);
    fb.set(2, 0, 'c', Color::White);
    let mut r = Renderer::new();
    let ops = r.draw(&fb);
    assert_eq!(
        ops,
        vec![
            DrawOp::MoveTo(0, 0),
            DrawOp::SetColor(Color::Green),
            DrawOp::Print('a'),
            DrawOp::MoveTo(1, 0),
            DrawOp::Print('b'),
            DrawOp::MoveTo(2, 0),
            DrawOp::SetColor(Color::White),
            DrawOp::Print('c'),
        ]
    );
}

#[test]
fn cleared_cell_prints_space_and_forget_redraws() {
    let mut fb = FrameBuffer::new(1, 1);
    fb.set(0, 0, 'a', Color::Green);
    let mut r = Renderer::new();
    r.draw(&fb);
    let empty = FrameBuffer::new(1, 1);
    assert_eq!(r.draw(&empty), vec![DrawOp::MoveTo(0, 0), DrawOp::Print(' ')]);
    r.clear();
    assert_eq!(
        r.draw(&fb),
        vec![DrawOp::MoveTo(0, 0), DrawOp::SetColor(Color::Green), DrawOp::Print('a')]
    );
}

/// Runs drawing output on a screen of characters and colours.
fn run_on_screen(screen: &mut Vec<Vec<(char, Option<Color>)>>, ops: &[DrawOp]) {
    let mut cursor = (0usize, 0usize);
    let mut color: Option<Color> = None;
    for op in ops {
        match *op {
            DrawOp::MoveTo(x, y) => cursor = (x as usize, y as usize),
            DrawOp::SetColor(c) => color = Some(c),
            DrawOp::Print(ch) => {
                screen[cursor.1][cursor.0] = (ch, color);
                cursor.0 += 1;
            }
        }
    }
}

fn screen_matches(screen: &[Vec<(char, Option<Color>)>], fb: &FrameBuffer) -> bool {
    fb.cells.iter().zip(screen.iter()).all(|(row, srow)| {
        row.iter().zip(srow.iter()).all(|(cell, shown)| match cell {
            Some(c) => *shown == (c.ch, Some(c.color)),
            None => shown.0 == ' ',
        })
    })
}

#[test]
fn drawn_output_brings_the_screen_to_each_frame() {
    let mut screen = vec![vec![(' ', None); 4]; 3];
    let mut r = Renderer::new();
    let mut first = FrameBuffer::new(4, 3);
    first.set(0, 0, '>', Color::Yellow);
    first.set(1, 0, '<', Color::Yellow);
    first.set(3, 2, '~', Color::Cyan);
    let ops = r.draw(&first);
    run_on_screen(&mut screen, &ops);
    assert!(screen_matches(&screen, &first));

    let mut second = FrameBuffer::new(4, 3);
    second.set(1, 0, '>', Color::Yellow);
    second.set(2, 0, '<', Color::Red);
    second.set(3, 2, '~', Color::Cyan);
    second.set(0, 1, 'o', Color::Cyan);
    let ops = r.draw(&second);
    run_on_screen(&mut screen, &ops);
    assert!(screen_matches(&screen, &second));
    assert_eq!(screen[0][0].0, ' ');
}
