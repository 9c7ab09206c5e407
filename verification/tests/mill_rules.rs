use roddna_core::mill::{anvil_numbers, bed_registration, moment_index, plan_sections, section_label};

#[test]
fn section_labels_tip_mid_butt() {
    assert_eq!(section_label(0, 3), "Tip");
    assert_eq!(section_label(1, 3), "Mid 1");
    assert_eq!(section_label(2, 3), "Butt");
    assert_eq!(section_label(12, 20), "Mid 12");
    assert_eq!(section_label(0, 1), "Tip");
}

#[test]
fn plan_splits_at_ferrule_hit() {
    // 24 stations 0, 5, ..., 115; a ferrule at 42" first reaches station 45 (index 9).
    let sections = plan_sections(24, 2, &vec![Some(9)]);
    assert_eq!(sections.len(), 2);
    assert_eq!(sections[0].label, "Tip");
    assert!(!sections[0].approximate);
    assert_eq!((sections[0].start, sections[0].end), (0, 10)); // stations 0..=45
    assert_eq!(sections[1].label, "Butt");
    assert_eq!((sections[1].start, sections[1].end), (8, 24)); // stations 40..=115
}

#[test]
fn plan_falls_back_to_even_split() {
    let sections = plan_sections(24, 3, &vec![]);
    assert_eq!(sections.len(), 3);
    assert_eq!(sections[0].label, "Tip");
    assert_eq!(sections[1].label, "Mid 1");
    assert_eq!(sections[2].label, "Butt");
    assert!(sections.iter().all(|s| s.approximate));
    assert_eq!((sections[0].start, sections[0].end), (0, 9));
    assert_eq!((sections[1].start, sections[1].end), (7, 17));
    assert_eq!((sections[2].start, sections[2].end), (15, 24));
}

#[test]
fn plan_single_section_for_one_piece_or_short_profile() {
    let one = plan_sections(10, 1, &vec![]);
    assert_eq!(one.len(), 1);
    assert_eq!(one[0].label, "Full rod");
    assert!(!one[0].approximate);
    assert_eq!((one[0].start, one[0].end), (0, 10));
    let short = plan_sections(2, 3, &vec![Some(1), Some(1)]);
    assert_eq!(short.len(), 1);
    assert_eq!(short[0].end, 2);
}

#[test]
fn plan_missing_hit_uses_last_point() {
    let sections = plan_sections(6, 2, &vec![None]);
    assert_eq!((sections[0].start, sections[0].end), (0, 6));
    assert_eq!((sections[1].start, sections[1].end), (4, 6));
}

#[test]
fn bed_registration_matches_manual_examples() {
    // 42" tip section: span round(42/5) = 8, strip round(50/5) = 10.
    let r = bed_registration(8, 10);
    assert_eq!(r.butt_station, 4);
    assert!(r.fits_standard_bed && !r.needs_extension_bed);
    assert_eq!(r.letter, 'D');
    // 70" section: span 14, strip round(78/5) = 16.
    let l = bed_registration(14, 16);
    assert!(l.butt_station < 0);
    assert!(!l.fits_standard_bed && l.needs_extension_bed);
    assert_eq!(l.letter, 'A');
    // A very short strip is capped at K.
    assert_eq!(bed_registration(0, 1).letter, 'K');
}

#[test]
fn moment_index_clamps_to_grid() {
    assert_eq!(moment_index(false, 7, 90), 0);
    assert_eq!(moment_index(true, 0, 90), 0);
    assert_eq!(moment_index(true, 1, 90), 0);
    assert_eq!(moment_index(true, 45, 90), 44);
    assert_eq!(moment_index(true, 200, 90), 89);
}

#[test]
fn plan_neighbours_share_two_points() {
    for pieces in 2..6usize {
        let sections = plan_sections(23, pieces, &vec![]);
        assert_eq!(sections[0].start, 0);
        assert_eq!(sections[pieces - 1].end, 23);
        for k in 0..pieces - 1 {
            assert_eq!(sections[k].end, sections[k + 1].start + 2);
            assert!(sections[k].start < sections[k].end);
        }
    }
}

#[test]
fn letters_step_down_as_strips_grow() {
    let mut prev = 'K';
    for strip in 0..20 {
        let l = bed_registration(0, strip).letter;
        assert!(('A'..='K').contains(&l));
        assert!(l <= prev);
        prev = l;
    }
}

#[test]
fn ferrule_plan_with_ordered_hits_is_well_formed() {
    let sections = plan_sections(30, 3, &vec![Some(9), Some(19), Some(25)]);
    assert_eq!(sections.len(), 3);
    assert!(sections.iter().all(|s| !s.approximate));
    assert_eq!((sections[0].start, sections[0].end), (0, 10));
    assert_eq!((sections[1].start, sections[1].end), (8, 20));
    assert_eq!((sections[2].start, sections[2].end), (18, 30));
    for s in &sections {
        assert!(s.start < s.end && s.end <= 30);
    }
}

#[test]
fn anvil_numbers_descend_to_zero_at_the_butt() {
    let a = anvil_numbers(12);
    assert_eq!(a.len(), 12);
    assert_eq!(a[0], 11);
    assert_eq!(a[11], 0);
    assert!(a.windows(2).all(|w| w[0] == w[1] + 1));
    assert_eq!(anvil_numbers(1), vec![0]);
    assert!(anvil_numbers(0).is_empty());
}
