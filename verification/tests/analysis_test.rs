use sorter_logic::{analyze_image, analyze_image_debug, AnalysisConfig, BeadAnalysis, Rgb};

fn in_annulus(x: usize, y: usize, cx: usize, cy: usize) -> bool {
    let dx = x as i64 - cx as i64;
    let dy = y as i64 - cy as i64;
    let d = dx * dx + dy * dy;
    (9..=49).contains(&d)
}

/// A frame of big-endian 5/6/5 words, one per pixel, chosen by `word`.
fn paint_frame(w: usize, h: usize, word: impl Fn(usize, usize) -> u16) -> Vec<u8> {
    let mut data = Vec::new();
    for y in 0..h {
        for x in 0..w {
            let p = word(x, y);
            data.push((p >> 8) as u8);
            data.push((p & 0xFF) as u8);
        }
    }
    data
}

fn flat_frame(w: usize, h: usize, p: u16) -> Vec<u8> {
    paint_frame(w, h, |_, _| p)
}

fn with_percent(filter_percent: u8) -> AnalysisConfig {
    AnalysisConfig {
        filter_percent,
        ..AnalysisConfig::default()
    }
}

fn found(r: u8, g: u8, b: u8, pixel_count: u32, variance: u32) -> Option<BeadAnalysis> {
    Some(BeadAnalysis {
        average_color: Rgb { r, g, b },
        pixel_count,
        variance,
    })
}

/// A red annulus around (20, 17) on black, its pixels from column 25 on white.
fn glare_frame() -> Vec<u8> {
    paint_frame(40, 30, |x, y| {
        if in_annulus(x, y, 20, 17) {
            if x >= 25 {
                0xFFFF
            } else {
                0xF800
            }
        } else {
            0
        }
    })
}

#[test]
fn default_config_keeps_sixty_percent() {
    let c = AnalysisConfig::default();
    assert_eq!(c.filter_percent, 60);
    assert_eq!(c.edge_threshold, 40);
    assert_eq!(c.min_dimension, 10);
    assert_eq!(c.aspect_ratio_min_centi, 60);
    assert_eq!(c.aspect_ratio_max_centi, 160);
}

#[test]
fn unusable_frames_have_no_bead() {
    let data = flat_frame(40, 30, 0xF800);
    assert_eq!(analyze_image(&data, 0, 30), None);
    assert_eq!(analyze_image(&data, 40, 0), None);
    assert_eq!(analyze_image(&data, 0, 0), None);
    // one byte short
    assert_eq!(analyze_image(&data[..2399], 40, 30), None);
    assert_eq!(analyze_image(&data, 41, 30), None);
    assert_eq!(analyze_image(&[], 40, 30), None);
    // a size whose byte count does not fit the machine
    assert_eq!(analyze_image(&data, usize::MAX, 2), None);
    assert_eq!(analyze_image(&data, usize::MAX, usize::MAX), None);
    assert_eq!(analyze_image(&data, usize::MAX / 2 + 1, 1), None);
}

#[test]
fn frames_without_annulus_pixels_have_no_bead() {
    // every annulus starts at column 9 and row 9 at the earliest
    for (w, h) in [(9usize, 30usize), (40, 9), (10, 10), (1, 1), (9, 9)] {
        let data = flat_frame(w, h, 0xFFFF);
        assert_eq!(analyze_image(&data, w, h), None);
    }
}

#[test]
fn small_frames_use_the_pixels_that_exist() {
    let data = flat_frame(17, 17, 0xFFFF);
    assert_eq!(analyze_image(&data, 17, 17), found(255, 255, 255, 21, 0));
    let data = flat_frame(20, 12, 0xFFFF);
    assert_eq!(analyze_image(&data, 20, 12), found(255, 255, 255, 9, 0));
}

#[test]
fn uniform_frame_reports_its_color() {
    // a flat frame scores zero everywhere, which is above the cutoff
    let data = flat_frame(40, 30, 0x8410);
    assert_eq!(analyze_image(&data, 40, 30), found(131, 129, 131, 74, 0));
    let data = flat_frame(40, 30, 0x0000);
    assert_eq!(analyze_image(&data, 40, 30), found(0, 0, 0, 74, 0));
}

#[test]
fn ties_go_to_the_first_candidate() {
    let data = flat_frame(40, 30, 0x1234);
    let mut mask = vec![9u8; 1200];
    let out = analyze_image_debug(&data, 40, 30, Some(&mut mask[..]), with_percent(60));
    assert_eq!(out, found(16, 68, 164, 74, 0));
    // the center mark sits on the first candidate, column 16 of row 16
    assert_eq!(mask.iter().position(|&m| m == 4), Some(16 * 40 + 16));
    assert_eq!(mask.iter().filter(|&&m| m == 4).count(), 1);
}

#[test]
fn finds_a_ring_on_a_dark_background() {
    let data = paint_frame(40, 30, |x, y| if in_annulus(x, y, 20, 17) { 0xF800 } else { 0 });
    assert_eq!(analyze_image(&data, 40, 30), found(255, 0, 0, 74, 0));
    let data = paint_frame(40, 30, |x, y| {
        if in_annulus(x, y, 24, 18) {
            0x07E0
        } else {
            0x0010
        }
    });
    assert_eq!(analyze_image(&data, 40, 30), found(0, 255, 0, 74, 0));
}

#[test]
fn extra_bytes_after_the_frame_are_ignored() {
    let mut data = paint_frame(40, 30, |x, y| if in_annulus(x, y, 20, 17) { 0xF800 } else { 0 });
    data.extend_from_slice(&[0xAB; 100]);
    assert_eq!(analyze_image(&data, 40, 30), found(255, 0, 0, 74, 0));
}

#[test]
fn refinement_drops_the_outliers() {
    // 17 of the 124 annulus pixels are glare: keeping 60 percent drops them all
    let data = glare_frame();
    assert_eq!(analyze_image(&data, 40, 30), found(255, 0, 0, 74, 0));
    assert_eq!(
        analyze_image_debug(&data, 40, 30, None, with_percent(60)),
        found(255, 0, 0, 74, 0)
    );
}

#[test]
fn filter_percent_sets_the_share_kept() {
    let data = glare_frame();
    // everything kept: the glare shows in mean and variance
    assert_eq!(
        analyze_image_debug(&data, 40, 30, None, with_percent(100)),
        found(255, 34, 34, 124, 15516)
    );
    assert_eq!(
        analyze_image_debug(&data, 40, 30, None, with_percent(90)),
        found(255, 9, 9, 111, 4524)
    );
    // at least one pixel is kept
    assert_eq!(
        analyze_image_debug(&data, 40, 30, None, with_percent(0)),
        found(255, 0, 0, 1, 0)
    );
}

#[test]
fn filter_percent_above_hundred_divides_by_the_keep_count() {
    let data = glare_frame();
    assert_eq!(
        analyze_image_debug(&data, 40, 30, None, with_percent(255)),
        found(100, 13, 13, 316, 22174)
    );
}

#[test]
fn mixed_ring_statistics() {
    let words = [0xF800u16, 0xFA08, 0xE8E4, 0xD000];
    let data = paint_frame(40, 30, |x, y| {
        if in_annulus(x, y, 19, 16) {
            words[(x * 3 + y * 5) % 4]
        } else {
            0x4208
        }
    });
    assert_eq!(analyze_image(&data, 40, 30), found(243, 12, 14, 74, 1021));
    assert_eq!(
        analyze_image_debug(&data, 40, 30, None, with_percent(25)),
        found(238, 28, 32, 31, 0)
    );
    assert_eq!(
        analyze_image_debug(&data, 40, 30, None, with_percent(100)),
        found(241, 23, 24, 124, 1926)
    );
}

#[test]
fn reserved_settings_have_no_effect() {
    let data = glare_frame();
    let odd = AnalysisConfig {
        edge_threshold: -7,
        min_dimension: 1000,
        aspect_ratio_min_centi: 0,
        aspect_ratio_max_centi: 1,
        filter_percent: 60,
    };
    assert_eq!(
        analyze_image_debug(&data, 40, 30, None, odd),
        analyze_image(&data, 40, 30)
    );
}

#[test]
fn mask_shows_center_and_kept_pixels() {
    let data = glare_frame();
    let mut mask = vec![7u8; 1200];
    let out = analyze_image_debug(&data, 40, 30, Some(&mut mask[..]), with_percent(60));
    assert_eq!(out, found(255, 0, 0, 74, 0));
    assert_eq!(mask.len(), 1200);
    assert_eq!(mask[17 * 40 + 20], 4);
    assert_eq!(mask.iter().filter(|&&m| m == 4).count(), 1);
    assert_eq!(mask.iter().filter(|&&m| m == 1).count(), 74);
    assert_eq!(mask.iter().filter(|&&m| m == 0).count(), 1125);
    for y in 0..30 {
        for x in 0..40 {
            if mask[y * 40 + x] == 1 {
                // kept pixels are red annulus pixels
                assert!(in_annulus(x, y, 20, 17) && x < 25);
            }
        }
    }
}

#[test]
fn mask_does_not_change_the_result() {
    let data = glare_frame();
    for percent in [0u8, 25, 60, 100, 200] {
        let mut mask = vec![0u8; 1200];
        assert_eq!(
            analyze_image_debug(&data, 40, 30, Some(&mut mask[..]), with_percent(percent)),
            analyze_image_debug(&data, 40, 30, None, with_percent(percent))
        );
    }
}

#[test]
fn mask_with_padding_marks_pixel_zero() {
    let data = glare_frame();
    let mut mask = vec![7u8; 1200];
    analyze_image_debug(&data, 40, 30, Some(&mut mask[..]), with_percent(255));
    assert_eq!(mask[0], 1);
    assert_eq!(mask.iter().filter(|&&m| m == 1).count(), 125);
    assert_eq!(mask.iter().filter(|&&m| m == 4).count(), 1);
}

#[test]
fn mask_is_cleared_when_no_bead_is_found() {
    let data = flat_frame(40, 30, 0);
    let mut mask = vec![7u8; 1200];
    // read as 9 columns wide, no annulus pixel exists
    assert_eq!(
        analyze_image_debug(&data, 9, 30, Some(&mut mask[..]), with_percent(60)),
        None
    );
    assert!(mask.iter().all(|&m| m == 0));
}

#[test]
fn mask_is_untouched_for_an_unusable_frame() {
    let data = flat_frame(40, 30, 0);
    let mut mask = vec![7u8; 1200];
    assert_eq!(
        analyze_image_debug(&data, 40, 31, Some(&mut mask[..]), with_percent(60)),
        None
    );
    assert!(mask.iter().all(|&m| m == 7));
}

#[test]
fn short_mask_is_painted_as_far_as_it_reaches() {
    let data = glare_frame();
    let mut mask = vec![7u8; 10];
    let out = analyze_image_debug(&data, 40, 30, Some(&mut mask[..]), with_percent(60));
    assert_eq!(out, found(255, 0, 0, 74, 0));
    assert_eq!(mask, vec![0u8; 10]);
    let mut empty: Vec<u8> = Vec::new();
    let out = analyze_image_debug(&data, 40, 30, Some(&mut empty[..]), with_percent(255));
    assert_eq!(out, found(100, 13, 13, 316, 22174));
}
