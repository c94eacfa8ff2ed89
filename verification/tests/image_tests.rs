use asciiquarium::color::{Color, ColorMode};
use asciiquarium::image_to_ascii::{
    density_char, parse_chafa_line, parse_chafa_output, rgb_to_terminal_color, sample_block, sample_block_checked,
    ConvertConfig, DENSITY_CHARS,
};
use image::{DynamicImage, Rgba, RgbaImage};

#[test]
fn test_rgb_to_terminal_color() {
    // White and black should be exact
    assert_eq!(rgb_to_terminal_color(255, 255, 255), Color::White);
    assert_eq!(rgb_to_terminal_color(0, 0, 0), Color::Black);
    // Reddish colors should map to red variants
    let red = rgb_to_terminal_color(255, 0, 0);
    assert!(red == Color::Red || red == Color::BrightRed);
    // Greenish colors should map to green variants
    let green = rgb_to_terminal_color(0, 255, 0);
    assert!(green == Color::Green || green == Color::BrightGreen);
    // Blueish colors should map to blue variants
    let blue = rgb_to_terminal_color(0, 0, 255);
    assert!(blue == Color::Blue || blue == Color::BrightBlue);
    // Yellow should be recognizable
    let yellow = rgb_to_terminal_color(255, 255, 0);
    assert!(yellow == Color::Yellow || yellow == Color::BrightYellow);
}

#[test]
fn nearest_palette_color_exact_values() {
    // (255,0,0): Red is at 85^2 = 7225, BrightRed at 2*85^2 + 85^2 = 21675.
    assert_eq!(rgb_to_terminal_color(255, 0, 0), Color::Red);
    assert_eq!(rgb_to_terminal_color(170, 170, 0), Color::Yellow);
    assert_eq!(rgb_to_terminal_color(85, 85, 255), Color::BrightBlue);
    // Halfway between black and the dark blue: the first of the two wins.
    assert_eq!(rgb_to_terminal_color(0, 0, 85), Color::Black);
}

#[test]
fn test_default_config_uses_truecolor() {
    let config = ConvertConfig::default();
    assert_eq!(config.color_mode, ColorMode::TrueColor);
}

#[test]
fn default_config_values() {
    let config = ConvertConfig::default();
    assert_eq!(config.max_width, Some(40));
    assert_eq!(config.max_height, Some(20));
    assert_eq!(config.transparent_threshold, 128);
    assert!(config.color);
}

#[test]
fn test_parse_chafa_line_plain_text() {
    let (cells, colors) = parse_chafa_line("ABC");
    assert_eq!(cells, vec![Some('A'), Some('B'), Some('C')]);
    // No ANSI escapes, so all colors should be None
    assert_eq!(colors, vec![None, None, None]);
}

#[test]
fn test_parse_chafa_line_spaces_are_transparent() {
    let (cells, colors) = parse_chafa_line("A B");
    assert_eq!(cells, vec![Some('A'), None, Some('B')]);
    assert_eq!(colors, vec![None, None, None]);
}

#[test]
fn test_parse_chafa_line_truecolor_escape() {
    // ESC[38;2;255;128;0m followed by a character
    let line = "\x1b[38;2;255;128;0mX";
    let (cells, colors) = parse_chafa_line(line);
    assert_eq!(cells, vec![Some('X')]);
    assert_eq!(colors, vec![Some(Color::Rgb(255, 128, 0))]);
}

#[test]
fn test_parse_chafa_line_reset_clears_color() {
    let line = "\x1b[38;2;10;20;30mA\x1b[0mB";
    let (cells, colors) = parse_chafa_line(line);
    assert_eq!(cells, vec![Some('A'), Some('B')]);
    assert_eq!(colors, vec![Some(Color::Rgb(10, 20, 30)), None]);
}

#[test]
fn test_parse_chafa_line_multiple_colors() {
    let line = "\x1b[38;2;255;0;0mR\x1b[38;2;0;255;0mG\x1b[38;2;0;0;255mB";
    let (cells, colors) = parse_chafa_line(line);
    assert_eq!(cells, vec![Some('R'), Some('G'), Some('B')]);
    assert_eq!(
        colors,
        vec![
            Some(Color::Rgb(255, 0, 0)),
            Some(Color::Rgb(0, 255, 0)),
            Some(Color::Rgb(0, 0, 255)),
        ]
    );
}

#[test]
fn test_parse_chafa_output_multiline() {
    let ansi = "\x1b[38;2;255;0;0mAB\n\x1b[38;2;0;255;0mCD";
    let shape = parse_chafa_output(ansi);
    assert_eq!(shape.frames.len(), 1);
    let frame = &shape.frames[0];
    assert_eq!(frame.height, 2);
    assert_eq!(frame.width, 2);
    assert_eq!(frame.cells[0], vec![Some('A'), Some('B')]);
    assert_eq!(frame.cells[1], vec![Some('C'), Some('D')]);
    assert_eq!(
        frame.colors[0],
        vec![Some(Color::Rgb(255, 0, 0)), Some(Color::Rgb(255, 0, 0))]
    );
    assert_eq!(
        frame.colors[1],
        vec![Some(Color::Rgb(0, 255, 0)), Some(Color::Rgb(0, 255, 0))]
    );
}

#[test]
fn test_parse_chafa_output_pads_uneven_rows() {
    let ansi = "ABC\nD";
    let shape = parse_chafa_output(ansi);
    let frame = &shape.frames[0];
    assert_eq!(frame.width, 3);
    assert_eq!(frame.cells[1].len(), 3);
    // Padded cells should be None (transparent)
    assert_eq!(frame.cells[1][1], None);
    assert_eq!(frame.cells[1][2], None);
}

#[test]
fn test_parse_chafa_line_unicode_block_chars() {
    // Chafa commonly outputs Unicode block characters
    let line = "\x1b[38;2;100;200;50m\u{2584}\u{2580}\u{2588}";
    let (cells, colors) = parse_chafa_line(line);
    assert_eq!(cells, vec![Some('\u{2584}'), Some('\u{2580}'), Some('\u{2588}')]);
    let expected_color = Some(Color::Rgb(100, 200, 50));
    assert_eq!(colors, vec![expected_color, expected_color, expected_color]);
}

#[test]
fn test_parse_chafa_output_empty_input() {
    let shape = parse_chafa_output("");
    let frame = &shape.frames[0];
    // Empty string produces zero lines
    assert_eq!(frame.height, 0);
    assert_eq!(frame.width, 0);
}

#[test]
fn chafa_ignores_other_sequences_and_bad_colors() {
    // A cursor sequence, a bold sequence, an out-of-range channel and a
    // truncated truecolor sequence leave the colour as it was.
    let line = "\x1b[?25lA\x1b[1mB\x1b[38;2;300;0;0mC\x1b[38;2;1;2mD";
    let (cells, colors) = parse_chafa_line(line);
    assert_eq!(cells, vec![Some('A'), Some('B'), Some('C'), Some('D')]);
    assert_eq!(colors, vec![None, None, None, None]);
}

#[test]
fn chafa_empty_sgr_resets_and_plus_sign_parses() {
    let line = "\x1b[38;2;+1;2;3mA\x1b[mB";
    let (cells, colors) = parse_chafa_line(line);
    assert_eq!(cells, vec![Some('A'), Some('B')]);
    assert_eq!(colors, vec![Some(Color::Rgb(1, 2, 3)), None]);
}

#[test]
fn chafa_unterminated_escape_skips_only_escape() {
    let (cells, colors) = parse_chafa_line("\x1b[12");
    assert_eq!(cells, vec![Some('['), Some('1'), Some('2')]);
    assert_eq!(colors, vec![None, None, None]);
}

#[test]
fn chafa_extra_parameters_are_refused() {
    // splitn(5) keeps "3;4" together, which is no number.
    let (cells, colors) = parse_chafa_line("\x1b[38;2;1;2;3;4mA");
    assert_eq!(cells, vec![Some('A')]);
    assert_eq!(colors, vec![None]);
}

#[test]
fn density_char_clamps() {
    assert_eq!(density_char(0), '.');
    assert_eq!(density_char(30), '@');
    assert_eq!(density_char(1000), '@');
    assert_eq!(DENSITY_CHARS.len(), 31);
}

#[test]
fn sample_block_averages_and_clamps() {
    let img = DynamicImage::ImageRgba8(RgbaImage::from_fn(2, 2, |x, y| {
        Rgba([(x * 100) as u8, (y * 100) as u8, 10, 255])
    }));
    // The whole image.
    assert_eq!(sample_block(&img, 0, 0, 2, 2), (50, 50, 10, 255));
    // A block past the right edge is clamped to the last column.
    assert_eq!(sample_block(&img, 1, 0, 3, 1), (100, 0, 10, 255));
    // An empty block.
    assert_eq!(sample_block(&img, 0, 0, 0, 5), (0, 0, 0, 0));
}

#[test]
fn sample_block_truncates_average() {
    let img = DynamicImage::ImageRgba8(RgbaImage::from_fn(3, 1, |x, _| {
        Rgba([x as u8, 0, 0, 0])
    }));
    // (0 + 1 + 2 + 2) / 4 = 1
    assert_eq!(sample_block(&img, 0, 0, 4, 1), (1, 0, 0, 0));
}

#[test]
fn chafa_pictures_never_show_a_space() {
    let text = "\x1b[38;2;1;2;3m a b\x1b[0m \n  \n\x1b[38;2;9;9;9mcc   c";
    let shape = parse_chafa_output(text);
    let f = &shape.frames[0];
    assert_eq!(f.height, 3);
    assert_eq!(f.width, 6);
    for r in 0..3 {
        assert_eq!(f.cells[r].len(), 6);
        assert_eq!(f.colors[r].len(), 6);
        for c in 0..6 {
            assert_ne!(f.cells[r][c], Some(' '));
            if f.colors[r][c].is_some() {
                assert!(f.cells[r][c].is_some());
            }
        }
    }
    assert_eq!(f.cells[0][1], Some('a'));
    assert_eq!(f.colors[0][1], Some(Color::Rgb(1, 2, 3)));
}

#[test]
fn image_settings_take_the_requested_size() {
    let c = ConvertConfig::for_images(ColorMode::Palette, Some((60, 30)));
    assert_eq!(c.max_width, Some(60));
    assert_eq!(c.max_height, Some(30));
    assert_eq!(c.color_mode, ColorMode::Palette);
    assert!(c.color);
    assert_eq!(c.transparent_threshold, 128);
    let d = ConvertConfig::for_images(ColorMode::TrueColor, None);
    assert_eq!(d.max_width, Some(40));
    assert_eq!(d.max_height, Some(20));
    assert_eq!(d.color_mode, ColorMode::TrueColor);
}

#[test]
fn solid_pictures_keep_their_colour_in_every_block() {
    let img = DynamicImage::ImageRgba8(RgbaImage::from_fn(4, 4, |_, _| Rgba([200, 30, 7, 0])));
    for (x, y, w, h) in [(0, 0, 4, 4), (1, 2, 3, 5), (3, 3, 9, 1), (0, 0, 1, 1)] {
        assert_eq!(sample_block(&img, x, y, w, h), (200, 30, 7, 0));
    }
}

#[test]
fn checked_sampling_refuses_blocks_that_would_fail() {
    let img = DynamicImage::ImageRgba8(RgbaImage::from_fn(2, 2, |_, _| Rgba([9, 8, 7, 6])));
    assert_eq!(sample_block_checked(&img, 0, 0, 2, 2), Some((9, 8, 7, 6)));
    assert_eq!(sample_block_checked(&img, u32::MAX, 0, 2, 1), None);
    assert_eq!(sample_block_checked(&img, u32::MAX, 0, 1, 1), Some((9, 8, 7, 6)));
    let empty = DynamicImage::ImageRgba8(RgbaImage::new(0, 0));
    assert_eq!(sample_block_checked(&empty, 0, 0, 1, 1), None);
    assert_eq!(sample_block_checked(&empty, 0, 0, 0, 1), Some((0, 0, 0, 0)));
}
