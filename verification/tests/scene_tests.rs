use asciiquarium::color::Color;
use asciiquarium::entity::EntityType;
use asciiquarium::renderer::Cell;
use asciiquarium::scene::{
    castle_left_x, compose, find_collisions, fish_count, isqrt, layer_is_safe, respawn_count,
    seaweed_count,
    Body, Layer,
};
use asciiquarium::shape::Frame;

#[test]
fn seaweed_counts() {
    assert_eq!(seaweed_count(20), 2);
    assert_eq!(seaweed_count(59), 2);
    assert_eq!(seaweed_count(120), 8);
    assert_eq!(seaweed_count(200), 13);
    // 13 + floor(sqrt(100))
    assert_eq!(seaweed_count(300), 23);
    // 13 + floor(sqrt(99))
    assert_eq!(seaweed_count(299), 22);
}

#[test]
fn isqrt_values() {
    assert_eq!(isqrt(0), 0);
    assert_eq!(isqrt(15), 3);
    assert_eq!(isqrt(16), 4);
    assert_eq!(isqrt(65535), 255);
    for n in 0..=2000u16 {
        assert_eq!(isqrt(n), (n as f64).sqrt() as u16);
    }
}

#[test]
fn fish_counts() {
    // Small terminals get at least three fish.
    assert_eq!(fish_count(40, 15), 3);
    assert_eq!(fish_count(20, 10), 3);
    // 31 water rows * 120 columns / 350
    assert_eq!(fish_count(120, 40), 10);
    // Large: 91 rows; 91*200/350 + 91*100/600
    assert_eq!(fish_count(300, 100), 52 + 15);
    // Screens shorter than the water offset have no water area.
    assert_eq!(fish_count(120, 5), 0);
}

#[test]
fn castle_boundary() {
    assert_eq!(castle_left_x(120), 60);
    assert_eq!(castle_left_x(64), 5);
    assert_eq!(castle_left_x(30), 5);
}

fn body(id: u64, kind: EntityType, x: i32, y: i32, w: u16, h: u16, z: i32) -> Body {
    Body { id, kind, x, y, w, h, z }
}

#[test]
fn teeth_eat_small_fish_and_leave_a_splat() {
    let bodies = vec![
        body(1, EntityType::Fish, 10, 10, 5, 3, 12),
        body(2, EntityType::Teeth, 12, 11, 10, 2, 17),
        body(3, EntityType::Fish, 12, 11, 5, 6, 12),
    ];
    let c = find_collisions(&bodies);
    assert_eq!(c.kills, vec![1]);
    assert_eq!(c.splats, vec![(12, 11, 17)]);
}

#[test]
fn bubbles_pop_at_the_surface() {
    let bodies = vec![
        body(7, EntityType::Waterline, 0, 0, 100, 1, 8),
        body(8, EntityType::Bubble, 5, 0, 1, 1, 9),
        body(9, EntityType::Bubble, 5, 3, 1, 1, 9),
    ];
    let c = find_collisions(&bodies);
    assert_eq!(c.kills, vec![8]);
    assert!(c.splats.is_empty());
}

#[test]
fn touching_edges_do_not_collide() {
    let bodies = vec![
        body(1, EntityType::Fish, 0, 0, 2, 2, 1),
        body(2, EntityType::Teeth, 2, 0, 2, 2, 1),
    ];
    assert!(find_collisions(&bodies).kills.is_empty());
}

#[test]
fn nearest_layer_wins() {
    let far = Frame::parse("aa", None, None);
    let near = Frame::parse("b", Some("R"), None);
    let layers = vec![
        Layer { frame: &near, x: 1, y: 0, z: 1, default_color: Color::White },
        Layer { frame: &far, x: 0, y: 0, z: 5, default_color: Color::Blue },
    ];
    let fb = compose(3, 1, &layers);
    assert_eq!(fb.cells[0][0], Some(Cell { ch: 'a', color: Color::Blue }));
    assert_eq!(fb.cells[0][1], Some(Cell { ch: 'b', color: Color::BrightRed }));
    assert_eq!(fb.cells[0][2], None);
}

#[test]
fn equal_depth_later_layer_wins_and_clipping() {
    let one = Frame::parse("xx", None, None);
    let two = Frame::parse("y y", None, Some(' '));
    let layers = vec![
        Layer { frame: &one, x: -1, y: 0, z: 3, default_color: Color::Green },
        Layer { frame: &two, x: 0, y: 0, z: 3, default_color: Color::Cyan },
    ];
    let fb = compose(2, 1, &layers);
    assert_eq!(fb.cells[0][0], Some(Cell { ch: 'y', color: Color::Cyan }));
    assert_eq!(fb.cells[0][1], None);
}

#[test]
fn layer_safety_check() {
    let f = Frame::parse("ab", None, None);
    let ok = Layer { frame: &f, x: 10, y: 3, z: 0, default_color: Color::White };
    assert!(layer_is_safe(&ok, 80, 24));
    // Column 65536 would wrap to 0 as a u16 and index past the buffer.
    let wraps = Layer { frame: &f, x: 65536, y: 0, z: 0, default_color: Color::White };
    assert!(!layer_is_safe(&wraps, 80, 24));
    let overflow = Layer { frame: &f, x: i32::MAX, y: 0, z: 0, default_color: Color::White };
    assert!(!layer_is_safe(&overflow, 80, 24));
}

#[test]
fn every_width_gets_at_least_two_seaweed() {
    for w in 0..=u16::MAX {
        let n = seaweed_count(w);
        assert!(n >= 2);
        if w > 200 {
            assert!(n >= 13 && n <= 13 + (w as usize - 200));
        }
    }
}

#[test]
fn every_touching_small_fish_is_eaten_whatever_the_order() {
    let bodies = vec![
        body(20, EntityType::Teeth, 40, 20, 4, 2, 17),
        body(21, EntityType::Fish, 41, 20, 6, 4, 5),
        body(22, EntityType::Bubble, 0, 0, 1, 1, 9),
        body(23, EntityType::Fish, 43, 21, 2, 5, 6),
        body(24, EntityType::Waterline, 0, 0, 80, 1, 8),
    ];
    let c = find_collisions(&bodies);
    assert!(c.kills.contains(&21));
    assert!(c.kills.contains(&23));
    assert!(c.kills.contains(&22));
    assert_eq!(c.kills.len(), 3);
    assert_eq!(c.splats, vec![(40, 20, 17), (40, 20, 17)]);
}

#[test]
fn missing_custom_pictures_are_counted() {
    assert_eq!(respawn_count(1, 3), 2);
    assert_eq!(respawn_count(3, 3), 0);
    assert_eq!(respawn_count(5, 3), 0);
    assert_eq!(respawn_count(0, 0), 0);
}
