//! Fish: their art, which kind a new fish is, bubbles and splats.
use vstd::prelude::*;
use crate::chance::random_below;
use crate::shape::{Shape, parsed_frame};

verus! {

/// A fish's art and colour mask for both directions.
pub struct FishDef {
    pub right_art: &'static str,
    pub right_mask: &'static str,
    pub left_art: &'static str,
    pub left_mask: &'static str,
    /// Character treated as transparent in the art (e.g. '?' for new fish).
    pub auto_trans: Option<char>,
}

/// Whether a fish definition holds the given art, masks and transparency
/// character.
pub open spec fn fish_def_is(
    d: FishDef,
    right_art: &str,
    right_mask: &str,
    left_art: &str,
    left_mask: &str,
    trans: Option<char>,
) -> bool {
    &&& d.right_art == right_art
    &&& d.right_mask == right_mask
    &&& d.left_art == left_art
    &&& d.left_mask == left_mask
    &&& d.auto_trans == trans
}

/// A fish definition with no transparency character.
pub fn fish(
    right_art: &'static str,
    right_mask: &'static str,
    left_art: &'static str,
    left_mask: &'static str,
) -> (d: FishDef)
    ensures
        d.right_art == right_art,
        d.right_mask == right_mask,
        d.left_art == left_art,
        d.left_mask == left_mask,
        d.auto_trans is None,
{
    FishDef { right_art, right_mask, left_art, left_mask, auto_trans: None }
}

/// A fish definition with its own transparency character.
pub fn fish_trans(
    right_art: &'static str,
    right_mask: &'static str,
    left_art: &'static str,
    left_mask: &'static str,
    trans: char,
) -> (d: FishDef)
    ensures
        d.right_art == right_art,
        d.right_mask == right_mask,
        d.left_art == left_art,
        d.left_mask == left_mask,
        d.auto_trans == Some(trans),
{
    FishDef { right_art, right_mask, left_art, left_mask, auto_trans: Some(trans) }
}

/// The right-facing art of the classic fish, in order.
pub const OLD_FISH_RIGHT_ART: [&'static str; 8] = [
    "       \\\n     ...\\..,\n\\  /'       \\\n >=     (  ' >\n/  \\      / /\n    `\"'\"'/''",
    "    \\\n\\ /--\\\n>=  (o>\n/ \\__/\n    /",
    "       \\:.\n\\;,   ,;\\\\\\,,\n  \\\\\\;;:::::::o\n  ///;;::::::::<\n /;` ``/////``",
    "  __\n><_'>\n   '",
    "   ..\\,\n>='   ('>\n  '''/''",
    "   \\\n  / \\\n>=_('>\n  \\_/\n   /",
    "  ,\\\n>=('>\n  '/",
    "  __\n\\/ o\\\n/\\__/",
];

/// The colour masks of the right-facing art of the classic fish, in order.
pub const OLD_FISH_RIGHT_MASK: [&'static str; 8] = [
    "       2\n     1112111\n6  11       1\n 66     7  4 5\n6  1      3 1\n    11111311",
    "    2\n6 1111\n66  745\n6 1111\n    3",
    "       222\n666   1122211\n  6661111111114\n  66611111111115\n 666 113333311",
    "  11\n61145\n   3",
    "   1121\n661   745\n  111311",
    "   2\n  1 1\n661745\n  111\n   3",
    "  12\n66745\n  13",
    "  11\n61 41\n61111",
];

/// The left-facing art of the classic fish, in order.
pub const OLD_FISH_LEFT_ART: [&'static str; 8] = [
    "      /\n  ,../...\n /       '\\  /\n< '  )     =<\n \\ \\      /  \\\n  `'\\'\"'\"'",
    "  /\n /--\\ /\n<o)  =<\n \\__/ \\\n  \\",
    "      .:/\n   ,,///;,   ,;/\n o:::::::;;///\n>::::::::;;\\\\\\\n  ''\\\\\\\\\\'' ';\\",
    " __\n<'_><\n `",
    "  ,/..\n<')   `=<\n ``\\```",
    "  /\n / \\\n<')_=<\n \\_/\n  \\",
    " /,\n<')=<\n \\`",
    " __\n/o \\/\n\\__/\\",
];

/// The colour masks of the left-facing art of the classic fish, in order.
pub const OLD_FISH_LEFT_MASK: [&'static str; 8] = [
    "      2\n  1112111\n 1       11  6\n5 4  7     66\n 1 3      1  6\n  11311111",
    "  2\n 1111 6\n547  66\n 1111 6\n  3",
    "      222\n   1122211   666\n 4111111111666\n51111111111666\n  113333311 666",
    " 11\n54116\n 3",
    "  1211\n547   166\n 113111",
    "  2\n 1 1\n547166\n 111\n  3",
    " 21\n54766\n 31",
    " 11\n14 16\n11116",
];

/// The classic fish.
pub fn old_fish_defs() -> (v: Vec<FishDef>)
    ensures
        v@.len() == 8,
        forall|i: int|
            0 <= i < 8 ==> fish_def_is(
                #[trigger] v@[i],
                OLD_FISH_RIGHT_ART@[i],
                OLD_FISH_RIGHT_MASK@[i],
                OLD_FISH_LEFT_ART@[i],
                OLD_FISH_LEFT_MASK@[i],
                None,
            ),
{
    let mut v: Vec<FishDef> = Vec::new();
    let mut i: usize = 0;
    while i < 8
        invariant
            i <= 8,
            v@.len() == i,
            forall|j: int|
                0 <= j < i ==> fish_def_is(
                #[trigger] v@[j],
                OLD_FISH_RIGHT_ART@[j],
                OLD_FISH_RIGHT_MASK@[j],
                OLD_FISH_LEFT_ART@[j],
                OLD_FISH_LEFT_MASK@[j],
                None,
            ),
        decreases 8 - i,
    {
        v.push(fish(OLD_FISH_RIGHT_ART[i], OLD_FISH_RIGHT_MASK[i], OLD_FISH_LEFT_ART[i], OLD_FISH_LEFT_MASK[i]));
        i = i + 1;
    }
    v
}

/// The right-facing art of the newer fish, in order.
pub const NEW_FISH_RIGHT_ART: [&'static str; 4] = [
    "   \\\n  / \\\n>=_('>\n  \\_/\n   /",
    "     ,\n     }\\\n\\  .'  `\\\n}}<   ( 6>\n/  `,  .'\n     }/\n     '",
    "            \\'`.\n             )  \\\n(`.??????_.-`' ' '`-.\n \\ `.??.`        (o) \\_\n  >  ><     (((       (\n / .`??`._      /_|  /'\n(`.???????`-. _  _.-`\n            /__/'\n",
    "       ,--,_\n__    _\\.---'-.\n\\ '.-\"     // o\\\n/_.'-._    \\\\  /\n       `\"--(/\"`",
];

/// The colour masks of the right-facing art of the newer fish, in order.
pub const NEW_FISH_RIGHT_MASK: [&'static str; 4] = [
    "   1\n  1 1\n663745\n  111\n   3",
    "     2\n     22\n6  11  11\n661   7 45\n6  11  11\n     33\n     3",
    "            1111\n             1  1\n111      11111 1 1111\n 1 11  11        141 11\n  1  11     777       5\n 1 11  111      333  11\n111       111 1  1111\n            11111\n",
    "       22222\n66    121111211\n6 6111     77 41\n6661111    77  1\n       11113311",
];

/// The left-facing art of the newer fish, in order.
pub const NEW_FISH_LEFT_ART: [&'static str; 4] = [
    "  /\n / \\\n<')_=<\n \\_/\n  \\",
    "    ,\n   /{\n /'  `.  /\n<6 )   >{{\n `.  ,'  \\\n   \\{\n    `",
    "       .'`/\n      /  (\n  .-'` ` `'-._??????.')\n_/ (o)        '.??.' /\n)       )))     ><  <\n`\\  |_\\      _.'??'. \\\n  '-._  _ .-'???????'.)\n      `\\__\\",
    "    _,--,\n .-'---./_    __\n/o \\\\     \"-.' /\n\\  //    _.-'._\\\n `\"\\)--\"`",
];

/// The colour masks of the left-facing art of the newer fish, in order.
pub const NEW_FISH_LEFT_MASK: [&'static str; 4] = [
    "  2\n 111\n547366\n 111\n  3",
    "    2\n   22\n 11  11  6\n54 7   166\n 11  11  6\n   33\n    3",
    "       1111\n      1  1\n  1111 1 11111      111\n11 141        11  11 1\n5       777     11  1\n11  333      111  11 1\n  1111  1 111       111\n      11111",
    "    22222\n 112111121    66\n14 77     1116 6\n1  77    1111666\n 11331111",
];

/// Which of the newer fish treat `?` as transparent (the others have no
/// transparency character).
pub const NEW_FISH_QUERY_TRANS: [bool; 4] = [false, false, true, false];

/// The transparency character of newer fish `i`.
pub open spec fn new_fish_trans(i: int) -> Option<char> {
    if NEW_FISH_QUERY_TRANS@[i] {
        Some('?')
    } else {
        None
    }
}

/// The newer fish (the pufferfish among them uses `?` for transparency).
pub fn new_fish_defs() -> (v: Vec<FishDef>)
    ensures
        v@.len() == 4,
        forall|i: int|
            0 <= i < 4 ==> fish_def_is(
                #[trigger] v@[i],
                NEW_FISH_RIGHT_ART@[i],
                NEW_FISH_RIGHT_MASK@[i],
                NEW_FISH_LEFT_ART@[i],
                NEW_FISH_LEFT_MASK@[i],
                new_fish_trans(i),
            ),
{
    let mut v: Vec<FishDef> = Vec::new();
    let mut i: usize = 0;
    while i < 4
        invariant
            i <= 4,
            v@.len() == i,
            forall|j: int|
                0 <= j < i ==> fish_def_is(
                #[trigger] v@[j],
                NEW_FISH_RIGHT_ART@[j],
                NEW_FISH_RIGHT_MASK@[j],
                NEW_FISH_LEFT_ART@[j],
                NEW_FISH_LEFT_MASK@[j],
                new_fish_trans(j),
            ),
        decreases 4 - i,
    {
        let d = if NEW_FISH_QUERY_TRANS[i] {
            fish_trans(
                NEW_FISH_RIGHT_ART[i],
                NEW_FISH_RIGHT_MASK[i],
                NEW_FISH_LEFT_ART[i],
                NEW_FISH_LEFT_MASK[i],
                '?',
            )
        } else {
            fish(
                NEW_FISH_RIGHT_ART[i],
                NEW_FISH_RIGHT_MASK[i],
                NEW_FISH_LEFT_ART[i],
                NEW_FISH_LEFT_MASK[i],
            )
        };
        v.push(d);
        i = i + 1;
    }
    v
}

/// The right-facing art of the extra small fish, in order.
pub const EXTRA_FISH_RIGHT_ART: [&'static str; 6] = [
    "  _____\n><_____'>\n  `---'",
    "  ___\n><((('>\n  ---",
    "    \\  \\\n  ___\\  \\\n><____'  '>\n  ---/  /\n    /  /",
    "   /\\\n  /--\\\n><----'>\n  \\--/\n   \\/",
    "><>",
    "  __\n>|  '>\n  --",
];

/// The colour masks of the right-facing art of the extra small fish, in order.
pub const EXTRA_FISH_RIGHT_MASK: [&'static str; 6] = [
    "  11111\n611111145\n  13331",
    "  111\n6111145\n  333",
    "    2  2\n  1112  1\n6111111  45\n  3331  3\n    3  3",
    "   11\n  1111\n61111145\n  1111\n   11",
    "614",
    "  11\n611145\n  33",
];

/// The left-facing art of the extra small fish, in order.
pub const EXTRA_FISH_LEFT_ART: [&'static str; 6] = [
    " _____\n<'_____><\n  `---'",
    " ___\n<')))><\n ---",
    "  /  /\n /  /___\n<'  '____><\n  \\  \\---\n    \\  \\",
    "  /\\\n /--\\\n<'----><\n /--\\\n  \\/",
    "<><",
    " __\n<'  |<\n --",
];

/// The colour masks of the left-facing art of the extra small fish, in order.
pub const EXTRA_FISH_LEFT_MASK: [&'static str; 6] = [
    " 11111\n541111116\n  13331",
    " 111\n5411116\n 333",
    "  3  3\n 3  1111\n54  1111116\n  3  3331\n    2  2",
    "  11\n 1111\n54111116\n 1111\n  11",
    "416",
    " 11\n541116\n 33",
];

/// Extra small fish.
pub fn extra_fish_defs() -> (v: Vec<FishDef>)
    ensures
        v@.len() == 6,
        forall|i: int|
            0 <= i < 6 ==> fish_def_is(
                #[trigger] v@[i],
                EXTRA_FISH_RIGHT_ART@[i],
                EXTRA_FISH_RIGHT_MASK@[i],
                EXTRA_FISH_LEFT_ART@[i],
                EXTRA_FISH_LEFT_MASK@[i],
                None,
            ),
{
    let mut v: Vec<FishDef> = Vec::new();
    let mut i: usize = 0;
    while i < 6
        invariant
            i <= 6,
            v@.len() == i,
            forall|j: int|
                0 <= j < i ==> fish_def_is(
                #[trigger] v@[j],
                EXTRA_FISH_RIGHT_ART@[j],
                EXTRA_FISH_RIGHT_MASK@[j],
                EXTRA_FISH_LEFT_ART@[j],
                EXTRA_FISH_LEFT_MASK@[j],
                None,
            ),
        decreases 6 - i,
    {
        v.push(fish(EXTRA_FISH_RIGHT_ART[i], EXTRA_FISH_RIGHT_MASK[i], EXTRA_FISH_LEFT_ART[i], EXTRA_FISH_LEFT_MASK[i]));
        i = i + 1;
    }
    v
}

/// The family a fish definition comes from.
#[derive(Clone, Copy, Debug, PartialEq, Eq, Structural)]
pub enum FishFamily {
    Old,
    New,
    Extra,
}

/// Number of definitions in a family.
pub open spec fn family_size(f: FishFamily) -> int {
    match f {
        FishFamily::Old => 8,
        FishFamily::New => 4,
        FishFamily::Extra => 6,
    }
}

/// The classic and extra fish as one list of 14: the classic ones first.
pub fn old_or_extra(idx: usize) -> (pick: (FishFamily, usize))
    requires
        idx < 14,
    ensures
        pick == if idx < 8 {
            (FishFamily::Old, idx)
        } else {
            (FishFamily::Extra, (idx - 8) as usize)
        },
{
    if idx < 8 {
        (FishFamily::Old, idx)
    } else {
        (FishFamily::Extra, idx - 8)
    }
}

/// The fish that the draws `roll` (out of 12) and `idx` give: outside
/// classic mode a roll above 8 picks newer fish `idx` (out of 4); otherwise
/// `idx` (out of 14) counts through the classic fish, then the extra ones.
pub open spec fn fish_choice(classic: bool, roll: int, idx: int) -> (FishFamily, int) {
    if !classic && roll > 8 {
        (FishFamily::New, idx)
    } else if idx < 8 {
        (FishFamily::Old, idx)
    } else {
        (FishFamily::Extra, idx - 8)
    }
}

/// How many values the second draw takes after the first.
pub open spec fn fish_index_range(classic: bool, roll: int) -> int {
    if !classic && roll > 8 {
        4
    } else {
        14
    }
}

/// The fish definition for given draws.
pub fn fish_for_rolls(classic: bool, roll: usize, idx: usize) -> (pick: (FishFamily, usize))
    requires
        idx < fish_index_range(classic, roll as int),
    ensures
        pick.0 == fish_choice(classic, roll as int, idx as int).0,
        pick.1 == fish_choice(classic, roll as int, idx as int).1,
        pick.1 < family_size(pick.0),
{
    if !classic && roll > 8 {
        (FishFamily::New, idx)
    } else {
        old_or_extra(idx)
    }
}

/// Picks the definition of a new fish at random: in classic mode one of the
/// classic or extra fish; otherwise a newer fish with chance 3 in 12, else
/// a classic or extra one.
pub fn pick_fish(classic: bool) -> (pick: (FishFamily, usize))
    ensures
        exists|roll: int, idx: int|
            0 <= roll < 12 && 0 <= idx < fish_index_range(classic, roll) && pick.0 == fish_choice(
                classic,
                roll,
                idx,
            ).0 && pick.1 == fish_choice(classic, roll, idx).1,
        pick.1 < family_size(pick.0),
        classic ==> pick.0 != FishFamily::New,
{
    let roll = if classic {
        0
    } else {
        random_below(12)
    };
    let range: usize = if !classic && roll > 8 {
        4
    } else {
        14
    };
    let idx = random_below(range);
    let pick = fish_for_rolls(classic, roll, idx);
    assert(0 <= roll < 12 && 0 <= idx < fish_index_range(classic, roll as int) && pick.0
        == fish_choice(classic, roll as int, idx as int).0 && pick.1 == fish_choice(
        classic,
        roll as int,
        idx as int,
    ).1);
    pick
}

/// Bubbles grow as they rise: `.`, `o`, then `O` for three frames.
pub fn bubble_shape() -> (s: Shape)
    ensures
        s@ == seq![
            parsed_frame("."@, None, None),
            parsed_frame("o"@, None, None),
            parsed_frame("O"@, None, None),
            parsed_frame("O"@, None, None),
            parsed_frame("O"@, None, None),
        ],
{
    let mut frames: Vec<(&str, Option<&str>)> = Vec::new();
    frames.push((".", None));
    frames.push(("o", None));
    frames.push(("O", None));
    frames.push(("O", None));
    frames.push(("O", None));
    let s = Shape::multi(frames, None);
    assert(s@ =~= seq![
        parsed_frame("."@, None, None),
        parsed_frame("o"@, None, None),
        parsed_frame("O"@, None, None),
        parsed_frame("O"@, None, None),
        parsed_frame("O"@, None, None),
    ]);
    s
}

/// The four frames of a splat, growing from a speck to a burst.
pub const SPLAT_FRAMES: [&'static str; 4] = [
    " *",
    "***\n *",
    "  *\n*****\n  *",
    "   *\n *****\n*******\n *****\n   *",
];

/// The splat's frames, without colour mask.
pub fn splat_shape() -> (s: Shape)
    ensures
        s@.len() == 4,
        forall|i: int| 0 <= i < 4 ==> #[trigger] s@[i] == parsed_frame(SPLAT_FRAMES@[i]@, None, None),
{
    let mut frames: Vec<(&str, Option<&str>)> = Vec::new();
    let mut i: usize = 0;
    while i < 4
        invariant
            i <= 4,
            frames@.len() == i,
            forall|j: int| 0 <= j < i ==> #[trigger] frames@[j] == (SPLAT_FRAMES@[j], None::<&str>),
        decreases 4 - i,
    {
        frames.push((SPLAT_FRAMES[i], None));
        i = i + 1;
    }
    Shape::multi(frames, None)
}

} // verus!
