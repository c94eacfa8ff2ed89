//! The command line: its flags, the images it names and the image size.
use vstd::prelude::*;
use crate::text::{
    chars_of, char_pos, copy_range, find_char, parse_unsigned, parse_unsigned_chars, same_chars,
};

verus! {

/// The size that a `WxH` argument gives: exactly one `x`, with a `u16` on
/// each side.
pub open spec fn size_of_arg(s: Seq<char>) -> Option<(u16, u16)> {
    let k = char_pos(s, 'x');
    if k >= s.len() {
        None
    } else {
        let rest = s.skip(k + 1 as int);
        if char_pos(rest, 'x') < rest.len() {
            None
        } else {
            match (parse_unsigned(s.take(k as int), 65535), parse_unsigned(rest, 65535)) {
                (Some(w), Some(h)) => Some((w as u16, h as u16)),
                _ => None,
            }
        }
    }
}

/// Parses an image size given as `WxH` (e.g. `60x30`).
pub fn parse_size(s: &str) -> (r: Option<(u16, u16)>)
    ensures
        r == size_of_arg(s@),
{
    let chars = chars_of(s);
    let k = find_char(chars.as_slice(), 'x');
    if k >= chars.len() {
        return None;
    }
    let rest = copy_range(chars.as_slice(), k + 1, chars.len());
    assert(rest@ == s@.skip(k + 1 as int));
    if find_char(rest.as_slice(), 'x') < rest.len() {
        return None;
    }
    let first = copy_range(chars.as_slice(), 0, k);
    assert(first@ == s@.take(k as int));
    let w = parse_unsigned_chars(first.as_slice(), 65535);
    let h = parse_unsigned_chars(rest.as_slice(), 65535);
    match (w, h) {
        (Some(w), Some(h)) => Some((w as u16, h as u16)),
        _ => None,
    }
}


/// What a command line asks for.
pub struct Options {
    /// Whether `-c` or `--classic` appears anywhere on it.
    pub classic: bool,
    /// The paths given after `--image` or `-i`, in order.
    pub images: Vec<String>,
    /// The size given by the last `--image-size`, if any.
    pub image_size: Option<(u16, u16)>,
}

/// Why a command line is refused.
#[derive(Clone, Copy, Debug, PartialEq, Eq, Structural)]
pub enum CliError {
    /// An `--image-size` value that is not `WxH`.
    InvalidImageSize,
}

/// `-c` or `--classic`.
pub open spec fn is_classic_flag(a: Seq<char>) -> bool {
    a == seq!['-', 'c'] || a == seq!['-', '-', 'c', 'l', 'a', 's', 's', 'i', 'c']
}

/// `--image` or `-i`.
pub open spec fn is_image_flag(a: Seq<char>) -> bool {
    a == seq!['-', '-', 'i', 'm', 'a', 'g', 'e'] || a == seq!['-', 'i']
}

/// `--image-size`.
pub open spec fn is_image_size_flag(a: Seq<char>) -> bool {
    a == seq!['-', '-', 'i', 'm', 'a', 'g', 'e', '-', 's', 'i', 'z', 'e']
}

/// The images and image size that the arguments from position `i` on add
/// to those collected so far. A flag takes the argument after it, when
/// there is one; a flag at the end, and any other argument, is skipped. An
/// `--image-size` whose value is not a size refuses the whole line.
pub open spec fn scan_args(
    args: Seq<Seq<char>>,
    i: int,
    images: Seq<Seq<char>>,
    size: Option<(u16, u16)>,
) -> Result<(Seq<Seq<char>>, Option<(u16, u16)>), CliError>
    decreases args.len() - i,
{
    if i < 0 || i >= args.len() {
        Ok((images, size))
    } else if is_image_flag(args[i]) && i + 1 < args.len() {
        scan_args(args, i + 2, images.push(args[i + 1]), size)
    } else if is_image_size_flag(args[i]) && i + 1 < args.len() {
        match size_of_arg(args[i + 1]) {
            Some(wh) => scan_args(args, i + 2, images, Some(wh)),
            None => Err(CliError::InvalidImageSize),
        }
    } else {
        scan_args(args, i + 1, images, size)
    }
}

/// The characters of each argument.
pub open spec fn args_view(args: Seq<String>) -> Seq<Seq<char>> {
    Seq::new(args.len(), |i: int| args[i]@)
}

/// Whether the command line has a `-c` or `--classic` argument.
pub open spec fn has_classic_flag(args: Seq<Seq<char>>) -> bool {
    exists|i: int| 0 <= i < args.len() && is_classic_flag(#[trigger] args[i])
}

fn word(arg: &String, w: &Vec<char>) -> (r: bool)
    ensures
        r == (arg@ == w@),
{
    let chars = chars_of(arg.as_str());
    same_chars(&chars, w)
}

/// Reads a command line (the program's name first): the classic flag, the
/// images after `--image` or `-i`, and the size after `--image-size`.
pub fn parse_args(args: &Vec<String>) -> (r: Result<Options, CliError>)
    ensures
        match r {
            Ok(o) => {
                &&& scan_args(args_view(args@), 1, Seq::empty(), None) == Ok::<
                    (Seq<Seq<char>>, Option<(u16, u16)>),
                    CliError,
                >((args_view(o.images@), o.image_size))
                &&& o.classic == has_classic_flag(args_view(args@))
            },
            Err(e) => scan_args(args_view(args@), 1, Seq::empty(), None) == Err::<
                (Seq<Seq<char>>, Option<(u16, u16)>),
                CliError,
            >(e),
        },
{
    let ghost av = args_view(args@);
    let short_classic = vec!['-', 'c'];
    let long_classic = vec!['-', '-', 'c', 'l', 'a', 's', 's', 'i', 'c'];
    let long_image = vec!['-', '-', 'i', 'm', 'a', 'g', 'e'];
    let short_image = vec!['-', 'i'];
    let image_size_flag = vec!['-', '-', 'i', 'm', 'a', 'g', 'e', '-', 's', 'i', 'z', 'e'];

    let mut classic = false;
    let mut k: usize = 0;
    while k < args.len()
        invariant
            av == args_view(args@),
            k <= args@.len(),
            short_classic@ == seq!['-', 'c'],
            long_classic@ == seq!['-', '-', 'c', 'l', 'a', 's', 's', 'i', 'c'],
            classic == exists|j: int| 0 <= j < k && is_classic_flag(#[trigger] av[j]),
        decreases args.len() - k,
    {
        assert(av[k as int] == args@[k as int]@);
        if word(&args[k], &short_classic) || word(&args[k], &long_classic) {
            classic = true;
        }
        k = k + 1;
    }

    let mut images: Vec<String> = Vec::new();
    let mut size: Option<(u16, u16)> = None;
    let mut i: usize = 1;
    let n = args.len();
    assert(args_view(images@) =~= Seq::<Seq<char>>::empty());
    while i < n
        invariant
            av == args_view(args@),
            n == args@.len(),
            1 <= i,
            long_image@ == seq!['-', '-', 'i', 'm', 'a', 'g', 'e'],
            short_image@ == seq!['-', 'i'],
            image_size_flag@ == seq!['-', '-', 'i', 'm', 'a', 'g', 'e', '-', 's', 'i', 'z', 'e'],
            scan_args(av, i as int, args_view(images@), size) == scan_args(av, 1, Seq::empty(), None),
        decreases n - i,
    {
        assert(av[i as int] == args@[i as int]@);
        let is_image = word(&args[i], &long_image) || word(&args[i], &short_image);
        if is_image && i + 1 < n {
            let path = args[i + 1].clone();
            assert(av[i + 1] == path@);
            let ghost before = args_view(images@);
            images.push(path);
            assert(args_view(images@) =~= before.push(av[i + 1]));
            i = i + 2;
        } else if word(&args[i], &image_size_flag) && i + 1 < n {
            assert(av[i + 1] == args@[i + 1]@);
            match parse_size(args[i + 1].as_str()) {
                Some(wh) => {
                    size = Some(wh);
                    i = i + 2;
                },
                None => {
                    return Err(CliError::InvalidImageSize);
                },
            }
        } else {
            i = i + 1;
        }
    }
    assert(scan_args(av, i as int, args_view(images@), size) == Ok::<
        (Seq<Seq<char>>, Option<(u16, u16)>),
        CliError,
    >((args_view(images@), size)));
    Ok(Options { classic, images, image_size: size })
}

} // verus!
