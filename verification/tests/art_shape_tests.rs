use asciiquarium::art::duck::duck_shape;
use asciiquarium::art::environment::{build_seaweed_shape, castle_shape, water_lines};
use asciiquarium::art::random::{
    build_hook_shape, build_new_monster_shape, build_old_monster_shape, build_rod_shape,
    build_whale_spout_frame, make_whale_shape, next_object_for, pick_next_object,
    pick_scene_object, scene_object_for, RandomObject, LINE_ROWS,
};
use asciiquarium::color::Color;

#[test]
fn water_lines_tile_to_screen_width() {
    let lines = water_lines(120);
    assert_eq!(lines.len(), 4);
    assert_eq!(lines[0], "~".repeat(120));
    assert!(lines[1].starts_with("^^^^ ^^^  ^^^   ^^^    ^^^^^^^^ ^^^"));
    for l in &lines[1..] {
        assert_eq!(l.chars().count(), 120);
    }
}

#[test]
fn every_water_line_covers_very_wide_screens() {
    for width in [300u16, 800, 65535] {
        let lines = water_lines(width);
        assert_eq!(lines.len(), 4);
        for l in &lines {
            assert_eq!(l.chars().count(), width as usize);
        }
    }
    let lines = water_lines(300);
    // The 27-column second line repeats with its own period.
    let second: Vec<char> = lines[1].chars().collect();
    assert_eq!(second[27..54], second[0..27]);
    assert_eq!(second[297..300], second[0..3]);
}

#[test]
fn water_lines_narrow_screen() {
    let lines = water_lines(5);
    assert_eq!(lines[0], "~~~~~");
    assert_eq!(lines[3], "^^   ");
    assert!(water_lines(0).iter().all(|l| l.is_empty()));
}

#[test]
fn castle_has_two_frames_with_flag() {
    let s = castle_shape();
    assert_eq!(s.frames.len(), 2);
    assert_eq!(s.frames[0].width, 57);
    assert_eq!(s.frames[0].height, 19);
    assert!(s.frames[0].cells.iter().flatten().any(|c| *c == Some('#')));
    // The stone has no mask letter and keeps the default colour.
    let row = &s.frames[0].cells[8];
    let col = row.iter().position(|c| *c == Some('=')).unwrap();
    assert_eq!(s.frames[0].colors[8][col], None);
    // The first line of the art starts with the flag (a string continuation
    // drops its leading blanks): '>' in bright red, '#' in bright yellow.
    assert_eq!(s.frames[0].cells[0][0], Some('>'));
    assert_eq!(s.frames[0].colors[0][0], Some(Color::BrightRed));
    assert_eq!(s.frames[0].colors[0][3], Some(Color::BrightYellow));
}

#[test]
fn seaweed_alternates() {
    let s = build_seaweed_shape(3);
    assert_eq!(s.frames.len(), 2);
    let f = &s.frames[0];
    assert_eq!((f.width, f.height), (2, 3));
    assert_eq!(f.cells[0], vec![Some('('), None]);
    assert_eq!(f.cells[1], vec![Some(' '), Some(')')]);
    assert_eq!(f.cells[2], vec![Some('('), None]);
    let g = &s.frames[1];
    assert_eq!(g.cells[0], vec![Some(' '), Some(')')]);
    assert_eq!(g.cells[1], vec![Some('('), None]);
}

#[test]
fn duck_faces_its_direction() {
    let r = duck_shape(true);
    let l = duck_shape(false);
    assert_eq!(r.frames.len(), 2);
    assert_eq!(r.frames[0].cells[0][0], Some('>'));
    assert_eq!(l.frames[0].cells[0][5], Some('<'));
    assert_eq!(r.frames[0].colors[0][0], Some(Color::BrightYellow));
    // Spaces are transparent.
    assert_eq!(r.frames[0].cells[1][0], None);
}

#[test]
fn whale_spout_frame_aligns_lines() {
    let f = build_whale_spout_frame("\n  . .\n  -:-\n   :\n", 3, "BODY");
    assert_eq!(f, "\n     . .\n     -:-\n      :BODY");
    assert_eq!(build_whale_spout_frame("\n\n\n", 2, "x"), "x");
    assert_eq!(build_whale_spout_frame("a", 2, "b"), "ab");
}

#[test]
fn whale_has_twelve_frames() {
    for dir in 0..2 {
        let s = make_whale_shape(dir);
        assert_eq!(s.frames.len(), 12);
        assert!(s.frames.iter().all(|f| f.height == 8 && f.cells.len() == 8));
    }
}

#[test]
fn monsters_have_their_frames() {
    assert_eq!(build_new_monster_shape(true).frames.len(), 2);
    assert_eq!(build_new_monster_shape(false).frames.len(), 2);
    assert_eq!(build_old_monster_shape(true).frames.len(), 4);
    assert_eq!(build_old_monster_shape(false).frames.len(), 4);
}

#[test]
fn hook_hangs_below_its_line() {
    let s = build_hook_shape();
    let f = &s.frames[0];
    assert_eq!(f.height as usize, LINE_ROWS + 6);
    assert_eq!(f.cells[0][5], Some('|'));
    assert_eq!(f.cells[0][0], None);
    assert_eq!(f.colors[0][5], Some(Color::White));
    assert_eq!(f.width, 7);
    assert_eq!(f.cells[LINE_ROWS][6], Some('o'));
    assert_eq!(f.cells[LINE_ROWS][0], None);
    // The shank continues the line in columns 5 and 6.
    for r in LINE_ROWS + 1..=LINE_ROWS + 3 {
        assert_eq!(f.cells[r][5], Some('|'));
        assert_eq!(f.cells[r][6], Some('|'));
        assert_eq!(f.colors[r][5], Some(Color::White));
    }
    assert_eq!(f.cells[LINE_ROWS + 2][1], Some('.'));
    assert_eq!(f.cells[LINE_ROWS + 5][2], Some('`'));
    let rod = build_rod_shape();
    assert_eq!(rod.frames[0].height, 2);
}

#[test]
fn scene_object_weights() {
    let expect = [
        RandomObject::Shark,
        RandomObject::Shark,
        RandomObject::Ship,
        RandomObject::Ship,
        RandomObject::Whale,
        RandomObject::Whale,
        RandomObject::Monster,
        RandomObject::Monster,
        RandomObject::BigFish,
        RandomObject::BigFish,
        RandomObject::Hook,
        RandomObject::Hook,
        RandomObject::Dolphin,
        RandomObject::Submarine,
    ];
    for (roll, want) in expect.iter().enumerate() {
        assert_eq!(scene_object_for(roll, 3), *want);
    }
    assert_eq!(scene_object_for(14, 0), RandomObject::Shark);
    assert_eq!(scene_object_for(15, 5), RandomObject::Hook);
    for _ in 0..50 {
        let _ = pick_scene_object();
    }
}

#[test]
fn next_object_never_hooks() {
    assert_eq!(next_object_for(0), RandomObject::Shark);
    assert_eq!(next_object_for(4), RandomObject::BigFish);
    assert_eq!(next_object_for(5), RandomObject::Dolphin);
    assert_eq!(next_object_for(6), RandomObject::Submarine);
    assert_eq!(next_object_for(7), RandomObject::BigFish);
    for _ in 0..100 {
        assert_ne!(pick_next_object(), RandomObject::Hook);
    }
}
