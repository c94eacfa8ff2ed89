use asciiquarium::art::fish::{
    bubble_shape, EXTRA_FISH_LEFT_MASK, NEW_FISH_QUERY_TRANS, OLD_FISH_RIGHT_ART, extra_fish_defs, new_fish_defs, old_fish_defs, fish_for_rolls, old_or_extra, pick_fish,
    splat_shape, FishDef, FishFamily,
};
use asciiquarium::shape::Shape;

/// Verify that for every fish definition, the art and mask have the same
/// number of lines, and each corresponding line pair has the same length.
fn validate_fish_defs(defs: &[FishDef], label: &str) {
    for (i, def) in defs.iter().enumerate() {
        for (dir, art, mask) in [
            ("right", def.right_art, def.right_mask),
            ("left", def.left_art, def.left_mask),
        ] {
            let art_lines: Vec<&str> = art.lines().collect();
            let mask_lines: Vec<&str> = mask.lines().collect();
            assert_eq!(
                art_lines.len(),
                mask_lines.len(),
                "{} fish {} {}: art has {} lines but mask has {} lines",
                label,
                i,
                dir,
                art_lines.len(),
                mask_lines.len(),
            );
            for (line_idx, (a, m)) in art_lines.iter().zip(mask_lines.iter()).enumerate() {
                assert_eq!(
                    a.len(),
                    m.len(),
                    "{} fish {} {} line {}: art width {} != mask width {}\n  art:  {:?}\n  mask: {:?}",
                    label, i, dir, line_idx, a.len(), m.len(), a, m,
                );
            }
        }
    }
}

#[test]
fn old_fish_art_mask_dimensions_match() {
    validate_fish_defs(&old_fish_defs(), "old");
}

#[test]
fn new_fish_art_mask_dimensions_match() {
    validate_fish_defs(&new_fish_defs(), "new");
}

#[test]
fn extra_fish_art_mask_dimensions_match() {
    validate_fish_defs(&extra_fish_defs(), "extra");
}

#[test]
fn all_fish_parse_without_panic() {
    let old = old_fish_defs();
    let new = new_fish_defs();
    let extra = extra_fish_defs();
    let all: Vec<&FishDef> = old.iter().chain(new.iter()).chain(extra.iter()).collect();
    for (i, def) in all.iter().enumerate() {
        // Parsing should not panic
        let _r = Shape::single(def.right_art, Some(def.right_mask), def.auto_trans);
        let _l = Shape::single(def.left_art, Some(def.left_mask), def.auto_trans);
        // Verify non-zero dimensions
        let rf = &_r.frames[0];
        assert!(
            rf.width > 0 && rf.height > 0,
            "fish {} right has zero dimensions",
            i
        );
        let lf = &_l.frames[0];
        assert!(
            lf.width > 0 && lf.height > 0,
            "fish {} left has zero dimensions",
            i
        );
    }
}

#[test]
fn fish_family_sizes() {
    assert_eq!(old_fish_defs().len(), 8);
    assert_eq!(new_fish_defs().len(), 4);
    assert_eq!(extra_fish_defs().len(), 6);
    assert_eq!(new_fish_defs()[2].auto_trans, Some('?'));
    assert_eq!(old_fish_defs()[0].auto_trans, None);
}

#[test]
fn old_or_extra_splits_the_index() {
    assert_eq!(old_or_extra(0), (FishFamily::Old, 0));
    assert_eq!(old_or_extra(7), (FishFamily::Old, 7));
    assert_eq!(old_or_extra(8), (FishFamily::Extra, 0));
    assert_eq!(old_or_extra(13), (FishFamily::Extra, 5));
}

#[test]
fn classic_mode_never_picks_new_fish() {
    for _ in 0..200 {
        let (family, idx) = pick_fish(true);
        assert_ne!(family, FishFamily::New);
        let size = if family == FishFamily::Old { 8 } else { 6 };
        assert!(idx < size);
    }
}

#[test]
fn bubble_grows_as_it_rises() {
    let s = bubble_shape();
    let chars: Vec<Option<char>> = s.frames.iter().map(|f| f.cells[0][0]).collect();
    assert_eq!(chars, vec![Some('.'), Some('o'), Some('O'), Some('O'), Some('O')]);
}

#[test]
fn splat_frames_grow() {
    let s = splat_shape();
    let sizes: Vec<(u16, u16)> = s.frames.iter().map(|f| (f.width, f.height)).collect();
    assert_eq!(sizes, vec![(2, 1), (3, 2), (5, 3), (7, 5)]);
    // The leading space of the first frame is kept: nothing is transparent.
    assert_eq!(s.frames[0].cells[0], vec![Some(' '), Some('*')]);
}

#[test]
fn fish_draws_pick_the_family() {
    assert_eq!(fish_for_rolls(false, 9, 3), (FishFamily::New, 3));
    assert_eq!(fish_for_rolls(false, 11, 0), (FishFamily::New, 0));
    assert_eq!(fish_for_rolls(false, 8, 3), (FishFamily::Old, 3));
    assert_eq!(fish_for_rolls(false, 0, 13), (FishFamily::Extra, 5));
    assert_eq!(fish_for_rolls(true, 11, 9), (FishFamily::Extra, 1));
    assert_eq!(fish_for_rolls(true, 0, 7), (FishFamily::Old, 7));
}

#[test]
fn fish_tables_hold_the_art() {
    let old = old_fish_defs();
    assert_eq!(old[3].right_art, OLD_FISH_RIGHT_ART[3]);
    assert_eq!(old[3].right_art, "  __\n><_'>\n   '");
    assert_eq!(old[3].auto_trans, None);
    let new = new_fish_defs();
    for (i, d) in new.iter().enumerate() {
        assert_eq!(d.auto_trans.is_some(), NEW_FISH_QUERY_TRANS[i]);
    }
    assert_eq!(new[0].auto_trans, None);
    assert_eq!(new[2].auto_trans, Some('?'));
    let extra = extra_fish_defs();
    assert_eq!(extra[4].right_art, "><>");
    assert_eq!(extra[4].left_mask, EXTRA_FISH_LEFT_MASK[4]);
    assert_eq!(extra[4].left_mask, "416");
}

#[test]
fn fish_art_spaces_are_drawn() {
    let d = &extra_fish_defs()[0];
    let s = Shape::single(d.right_art, Some(d.right_mask), d.auto_trans);
    // "  _____": with no transparency character the leading spaces are cells.
    assert_eq!(s.frames[0].cells[0][0], Some(' '));
}
