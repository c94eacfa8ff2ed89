//! Ducks floating on the water surface.
use vstd::prelude::*;
use crate::shape::{Shape, parsed_frame};

verus! {

pub const DUCK_RIGHT_1: &'static str = "\
 >(.)__
  (____/
   \" \"";

pub const DUCK_RIGHT_MASK_1: &'static str = "\
 YYYYY1
  YYYYY1
   B B";

pub const DUCK_RIGHT_2: &'static str = "\
 >(.)__
  (____/
  \" \"";

pub const DUCK_RIGHT_MASK_2: &'static str = "\
 YYYYY1
  YYYYY1
  B B";

pub const DUCK_LEFT_1: &'static str = "\
__(.)<
\\____)
  \" \"";

pub const DUCK_LEFT_MASK_1: &'static str = "\
1YYYYY
YYYYYY
  B B";

pub const DUCK_LEFT_2: &'static str = "\
__(.)<
\\____)
 \" \"";

pub const DUCK_LEFT_MASK_2: &'static str = "\
1YYYYY
YYYYYY
 B B";

/// A duck's two frames (the ripple under it shifts), facing right or left;
/// spaces are transparent.
pub fn duck_shape(going_right: bool) -> (s: Shape)
    ensures
        going_right ==> s@ == seq![
            parsed_frame(DUCK_RIGHT_1@, Some(DUCK_RIGHT_MASK_1@), Some(' ')),
            parsed_frame(DUCK_RIGHT_2@, Some(DUCK_RIGHT_MASK_2@), Some(' ')),
        ],
        !going_right ==> s@ == seq![
            parsed_frame(DUCK_LEFT_1@, Some(DUCK_LEFT_MASK_1@), Some(' ')),
            parsed_frame(DUCK_LEFT_2@, Some(DUCK_LEFT_MASK_2@), Some(' ')),
        ],
{
    let mut frames: Vec<(&str, Option<&str>)> = Vec::new();
    if going_right {
        frames.push((DUCK_RIGHT_1, Some(DUCK_RIGHT_MASK_1)));
        frames.push((DUCK_RIGHT_2, Some(DUCK_RIGHT_MASK_2)));
    } else {
        frames.push((DUCK_LEFT_1, Some(DUCK_LEFT_MASK_1)));
        frames.push((DUCK_LEFT_2, Some(DUCK_LEFT_MASK_2)));
    }
    let s = Shape::multi(frames, Some(' '));
    assert(s@.len() == 2);
    s
}

} // verus!
