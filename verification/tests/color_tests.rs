use asciiquarium::color::{color_mask_with, color_mode_for, rand_color, Color, ColorMode, TermColor, PALETTE};

#[test]
fn test_rgb_to_crossterm() {
    let c = Color::Rgb(128, 64, 32);
    let ct = c.terminal_color();
    assert_eq!(ct, TermColor::Rgb { r: 128, g: 64, b: 32 });
}

#[test]
fn test_rgb_color_equality() {
    assert_eq!(Color::Rgb(10, 20, 30), Color::Rgb(10, 20, 30));
    assert_ne!(Color::Rgb(10, 20, 30), Color::Rgb(10, 20, 31));
    assert_ne!(Color::Rgb(0, 0, 0), Color::Black);
}

#[test]
fn test_rgb_color_is_copy_and_clone() {
    let c = Color::Rgb(255, 0, 128);
    let c2 = c; // Copy
    let c3 = c.clone(); // Clone
    assert_eq!(c, c2);
    assert_eq!(c, c3);
}

#[test]
fn test_palette_colors_unchanged() {
    // Verify existing palette colors still map correctly
    assert_eq!(Color::Red.terminal_color(), TermColor::DarkRed);
    assert_eq!(Color::BrightGreen.terminal_color(), TermColor::Green);
    assert_eq!(Color::White.terminal_color(), TermColor::White);
}

#[test]
fn black_shows_as_dark_grey() {
    assert_eq!(Color::Black.terminal_color(), TermColor::DarkGrey);
    assert_eq!(Color::BrightMagenta.terminal_color(), TermColor::Magenta);
}

#[test]
fn mask_letters_map_to_colors() {
    assert_eq!(Color::from_mask_char('k'), Some(Color::Black));
    assert_eq!(Color::from_mask_char('R'), Some(Color::BrightRed));
    assert_eq!(Color::from_mask_char('W'), Some(Color::White));
    assert_eq!(Color::from_mask_char('w'), None);
    assert_eq!(Color::from_mask_char('1'), None);
    assert_eq!(Color::from_mask_char(' '), None);
}

#[test]
fn color_mode_values_differ() {
    assert_ne!(ColorMode::Palette, ColorMode::TrueColor);
}

#[test]
fn rand_color_keeps_length_and_plain_characters() {
    let mask = " 11 x0\nW";
    let out = rand_color(mask);
    assert_eq!(out.chars().count(), mask.chars().count());
    let o: Vec<char> = out.chars().collect();
    assert_eq!(o[0], ' ');
    assert_eq!(o[3], ' ');
    assert_eq!(o[4], 'x');
    assert_eq!(o[5], '0');
    assert_eq!(o[6], '\n');
    assert_eq!(o[7], 'W');
}

#[test]
fn rand_color_eye_is_white() {
    for _ in 0..20 {
        let out: Vec<char> = rand_color("4444").chars().collect();
        assert_eq!(out, vec!['W', 'W', 'W', 'W']);
    }
}

#[test]
fn rand_color_is_consistent_per_digit() {
    for _ in 0..50 {
        let out: Vec<char> = rand_color("1212334").chars().collect();
        assert_eq!(out[0], out[2]);
        assert_eq!(out[1], out[3]);
        assert_eq!(out[4], out[5]);
        assert_eq!(out[6], 'W');
        for i in 0..6 {
            assert!(PALETTE.contains(&out[i]), "{:?} is not a palette letter", out[i]);
        }
    }
}

#[test]
fn colorterm_setting_selects_the_colour_depth() {
    assert_eq!(color_mode_for(Some("truecolor")), ColorMode::TrueColor);
    assert_eq!(color_mode_for(Some("24bit")), ColorMode::TrueColor);
    assert_eq!(color_mode_for(Some("256color")), ColorMode::Palette);
    assert_eq!(color_mode_for(Some("")), ColorMode::Palette);
    assert_eq!(color_mode_for(Some("TRUECOLOR")), ColorMode::Palette);
    assert_eq!(color_mode_for(None), ColorMode::Palette);
}

#[test]
fn mask_colouring_with_given_choices() {
    let picks = vec![0, 2, 11, 5, 0, 0, 0, 0, 0, 7];
    assert_eq!(color_mask_with("1 2\n4x9-0 1", &picks), "r M\nWxB-0 r");
    assert_eq!(color_mask_with("", &picks), "");
    assert_eq!(PALETTE[picks[3]], 'Y');
    assert_eq!(color_mask_with("33", &picks), "YY");
}
