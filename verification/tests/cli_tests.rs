use asciiquarium::cli::{parse_args, parse_size, CliError};

fn args(list: &[&str]) -> Vec<String> {
    list.iter().map(|s| s.to_string()).collect()
}

#[test]
fn reads_flags_images_and_size() {
    let r = parse_args(&args(&[
        "aquarium", "-c", "--image", "a.png", "-i", "b.png", "--image-size", "60x30",
    ]));
    let o = match r {
        Ok(o) => o,
        Err(_) => panic!("refused a valid command line"),
    };
    assert!(o.classic);
    assert_eq!(o.images, vec!["a.png".to_string(), "b.png".to_string()]);
    assert_eq!(o.image_size, Some((60, 30)));
}

#[test]
fn plain_command_line_asks_for_nothing() {
    let o = match parse_args(&args(&["aquarium"])) {
        Ok(o) => o,
        Err(_) => panic!("refused a valid command line"),
    };
    assert!(!o.classic);
    assert!(o.images.is_empty());
    assert_eq!(o.image_size, None);
}

#[test]
fn bad_image_size_is_refused() {
    let r = parse_args(&args(&["aquarium", "--image-size", "60by30"]));
    assert!(matches!(r, Err(CliError::InvalidImageSize)));
    let r = parse_args(&args(&["aquarium", "--image", "x.png", "--image-size", "60x"]));
    assert!(matches!(r, Err(CliError::InvalidImageSize)));
}

#[test]
fn trailing_flags_and_unknown_arguments_are_skipped() {
    let o = match parse_args(&args(&["aquarium", "--verbose", "--image-size"])) {
        Ok(o) => o,
        Err(_) => panic!("refused a valid command line"),
    };
    assert_eq!(o.image_size, None);
    let o = match parse_args(&args(&["aquarium", "--image"])) {
        Ok(o) => o,
        Err(_) => panic!("refused a valid command line"),
    };
    assert!(o.images.is_empty());
}

#[test]
fn last_image_size_wins_and_flag_values_are_not_flags() {
    let o = match parse_args(&args(&[
        "aquarium", "--image-size", "10x5", "--image", "-c", "--image-size", "80x40",
    ])) {
        Ok(o) => o,
        Err(_) => panic!("refused a valid command line"),
    };
    assert_eq!(o.image_size, Some((80, 40)));
    assert_eq!(o.images, vec!["-c".to_string()]);
    // The classic flag is looked for among all arguments.
    assert!(o.classic);
}

#[test]
fn size_values() {
    assert_eq!(parse_size("60x30"), Some((60, 30)));
    assert_eq!(parse_size("65535x1"), Some((65535, 1)));
    assert_eq!(parse_size("65536x1"), None);
    assert_eq!(parse_size("1x2x3"), None);
    assert_eq!(parse_size("x"), None);
}
