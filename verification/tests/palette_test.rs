use sorter_logic::{Palette, PaletteEntry, PaletteMatch, Rgb};

#[test]
fn test_palette_logic() {
    let mut palette: Palette<30> = Palette::new();

    let red = Rgb { r: 255, g: 0, b: 0 };
    let red_variant = Rgb {
        r: 250,
        g: 10,
        b: 10,
    };
    let blue = Rgb { r: 0, g: 0, b: 255 };

    // 1. First bead -> New Entry 0
    match palette.match_color(&red, 0, 500) {
        PaletteMatch::NewEntry(idx) => assert_eq!(idx, 0),
        _ => panic!("Expected NewEntry(0)"),
    }

    // 2. Similar bead -> Match 0
    match palette.match_color(&red_variant, 0, 500) {
        PaletteMatch::Match(idx) => assert_eq!(idx, 0),
        _ => panic!("Expected Match(0)"),
    }

    // 3. Different bead -> New Entry 1
    match palette.match_color(&blue, 0, 500) {
        PaletteMatch::NewEntry(idx) => assert_eq!(idx, 1),
        _ => panic!("Expected NewEntry(1)"),
    }
}

#[test]
fn test_full_palette() {
    let mut palette: Palette<5> = Palette::new(); // Small palette for testing

    for i in 0..5 {
        let color = Rgb {
            r: i as u8 * 10,
            g: 0,
            b: 0,
        };
        match palette.match_color(&color, 0, 1) {
            // Very strict threshold
            PaletteMatch::NewEntry(idx) => assert_eq!(idx, i),
            _ => panic!("Expected NewEntry({})", i),
        }
    }

    // Now full (count = 5)
    let new_color = Rgb {
        r: 255,
        g: 255,
        b: 255,
    };
    match palette.match_color(&new_color, 0, 100) {
        PaletteMatch::Full => (), // OK
        _ => panic!("Expected Full"),
    }
}

#[test]
fn first_sample_creates_entry_zero() {
    let colors = [
        Rgb { r: 0, g: 0, b: 0 },
        Rgb { r: 255, g: 255, b: 255 },
        Rgb { r: 12, g: 200, b: 99 },
    ];
    for c in colors {
        for threshold in [0u32, 1, 15, 500, u32::MAX] {
            let mut one: Palette<1> = Palette::new();
            assert_eq!(one.match_color(&c, 7, threshold), PaletteMatch::NewEntry(0));
            assert_eq!(one.len(), 1);
            let mut many: Palette<128> = Palette::new();
            assert_eq!(many.match_color(&c, 7, threshold), PaletteMatch::NewEntry(0));
            assert_eq!(many.get(0), Some(c));
        }
    }
}

#[test]
fn palette_without_slots_is_always_full() {
    let mut none: Palette<0> = Palette::new();
    assert_eq!(
        none.match_color(&Rgb { r: 1, g: 2, b: 3 }, 0, 500),
        PaletteMatch::Full
    );
    assert_eq!(none.len(), 0);
    assert!(none.is_empty());
}

#[test]
fn repeated_sample_matches_same_index() {
    let mut palette: Palette<8> = Palette::new();
    let a = Rgb { r: 200, g: 30, b: 30 };
    let b = Rgb { r: 20, g: 30, b: 220 };
    assert_eq!(palette.match_color(&a, 3, 15), PaletteMatch::NewEntry(0));
    assert_eq!(palette.match_color(&b, 3, 15), PaletteMatch::NewEntry(1));
    // after a creation, and again after a match
    assert_eq!(palette.match_color(&b, 3, 15), PaletteMatch::Match(1));
    assert_eq!(palette.match_color(&b, 900, 15), PaletteMatch::Match(1));
    assert_eq!(palette.match_color(&a, 3, 15), PaletteMatch::Match(0));
    palette.add_sample(0, &a, 3);
    assert_eq!(palette.match_color(&a, 3, 15), PaletteMatch::Match(0));
    assert_eq!(palette.len(), 2);
}

#[test]
fn zero_threshold_never_matches() {
    let mut palette: Palette<3> = Palette::new();
    let c = Rgb { r: 9, g: 9, b: 9 };
    assert_eq!(palette.match_color(&c, 0, 0), PaletteMatch::NewEntry(0));
    assert_eq!(palette.match_color(&c, 0, 0), PaletteMatch::NewEntry(1));
    assert_eq!(palette.match_color(&c, 0, 0), PaletteMatch::NewEntry(2));
    assert_eq!(palette.match_color(&c, 0, 0), PaletteMatch::Full);
    // with a threshold the first of the equal entries wins
    assert_eq!(palette.match_color(&c, 0, 1), PaletteMatch::Match(0));
}

#[test]
fn match_takes_the_nearest_entry() {
    let mut palette: Palette<4> = Palette::new();
    let red = Rgb { r: 255, g: 0, b: 0 };
    let near_red = Rgb { r: 250, g: 10, b: 10 };
    let blue = Rgb { r: 0, g: 0, b: 255 };
    assert_eq!(palette.match_color(&blue, 0, 1), PaletteMatch::NewEntry(0));
    assert_eq!(palette.match_color(&red, 0, 1), PaletteMatch::NewEntry(1));
    assert_eq!(palette.match_color(&near_red, 0, 1), PaletteMatch::NewEntry(2));
    // the distance from red to the near red is 21, to itself 0
    let probe = Rgb { r: 250, g: 10, b: 10 };
    assert_eq!(palette.match_color(&probe, 0, 40000), PaletteMatch::Match(2));
    assert_eq!(palette.match_color(&red, 0, 40000), PaletteMatch::Match(1));
    // the threshold is exclusive
    let mut pair: Palette<4> = Palette::new();
    assert_eq!(pair.match_color(&red, 0, 1), PaletteMatch::NewEntry(0));
    assert_eq!(pair.match_color(&near_red, 0, 21), PaletteMatch::NewEntry(1));
    let mut pair2: Palette<4> = Palette::new();
    assert_eq!(pair2.match_color(&red, 0, 1), PaletteMatch::NewEntry(0));
    assert_eq!(pair2.match_color(&near_red, 0, 22), PaletteMatch::Match(0));
}

#[test]
fn variance_plays_no_part_in_matching() {
    let mut palette: Palette<4> = Palette::new();
    let c = Rgb { r: 100, g: 150, b: 200 };
    assert_eq!(palette.match_color(&c, 0, 15), PaletteMatch::NewEntry(0));
    assert_eq!(palette.match_color(&c, u32::MAX, 15), PaletteMatch::Match(0));
}

#[test]
fn match_does_not_record_the_sample() {
    let mut palette: Palette<4> = Palette::new();
    let c = Rgb { r: 100, g: 150, b: 200 };
    assert_eq!(palette.match_color(&c, 5, 15), PaletteMatch::NewEntry(0));
    assert_eq!(palette.match_color(&c, 5, 15), PaletteMatch::Match(0));
    let e = palette.get_entry(0).unwrap();
    assert_eq!(e.count, 1);
    assert_eq!((e.sum_r, e.sum_g, e.sum_b, e.sum_var), (100, 150, 200, 5));
}

#[test]
fn add_sample_accumulates_and_never_creates_slots() {
    let mut palette: Palette<4> = Palette::new();
    palette.add_sample(0, &Rgb { r: 1, g: 1, b: 1 }, 1);
    assert_eq!(palette.len(), 0);
    assert_eq!(palette.get_entry(0), None);
    let c = Rgb { r: 10, g: 20, b: 30 };
    assert_eq!(palette.match_color(&c, 4, 15), PaletteMatch::NewEntry(0));
    palette.add_sample(0, &Rgb { r: 20, g: 21, b: 33 }, 7);
    assert_eq!(palette.len(), 1);
    assert_eq!(
        palette.get_entry(0),
        Some(PaletteEntry {
            sum_r: 30,
            sum_g: 41,
            sum_b: 63,
            sum_var: 11,
            count: 2
        })
    );
    assert_eq!(palette.get(0), Some(Rgb { r: 15, g: 20, b: 31 }));
    // unpopulated and out-of-range slots are left alone
    palette.add_sample(1, &c, 0);
    palette.add_sample(3, &c, 0);
    palette.add_sample(4, &c, 0);
    palette.add_sample(usize::MAX, &c, 0);
    assert_eq!(palette.len(), 1);
    assert_eq!(palette.get_entry(1), None);
    assert_eq!(palette.get_entry(0).unwrap().count, 2);
}

#[test]
fn accessors_are_bounds_checked() {
    let mut palette: Palette<2> = Palette::new();
    assert!(palette.is_empty());
    assert_eq!(palette.len(), 0);
    assert_eq!(palette.get(0), None);
    assert_eq!(palette.get_entry(0), None);
    let c = Rgb { r: 5, g: 6, b: 7 };
    palette.match_color(&c, 1, 15);
    assert!(!palette.is_empty());
    assert_eq!(palette.get(0), Some(c));
    assert_eq!(palette.get(1), None);
    assert_eq!(palette.get(2), None);
    assert_eq!(palette.get(usize::MAX), None);
    assert_eq!(palette.get_entry(2), None);
    assert_eq!(palette.get_entry(usize::MAX), None);
}

#[test]
fn default_palette_is_empty() {
    let palette: Palette<16> = Default::default();
    assert!(palette.is_empty());
    assert_eq!(palette.get_entry(0), None);
}

#[test]
fn entry_new_holds_one_sample() {
    let e = PaletteEntry::new(Rgb { r: 1, g: 2, b: 3 }, 4);
    assert_eq!(
        e,
        PaletteEntry {
            sum_r: 1,
            sum_g: 2,
            sum_b: 3,
            sum_var: 4,
            count: 1
        }
    );
    assert_eq!(e.avg(), (Rgb { r: 1, g: 2, b: 3 }, 4));
}

#[test]
fn entry_average_of_identical_samples_is_the_sample() {
    let c = Rgb { r: 255, g: 1, b: 128 };
    let v = u32::MAX;
    let mut e = PaletteEntry::new(c, v);
    for k in 1..=1000u32 {
        e.add(c, v);
        assert_eq!(e.count, k + 1);
        assert_eq!(e.avg(), (c, v));
    }
}

#[test]
fn entry_average_truncates() {
    let mut e = PaletteEntry::new(Rgb { r: 10, g: 0, b: 255 }, 10);
    e.add(Rgb { r: 11, g: 1, b: 254 }, 11);
    assert_eq!(e.avg(), (Rgb { r: 10, g: 0, b: 254 }, 10));
    e.add(Rgb { r: 12, g: 1, b: 254 }, 12);
    assert_eq!(e.avg(), (Rgb { r: 11, g: 0, b: 254 }, 11));
}

#[test]
fn entry_without_samples_averages_to_black() {
    let e = PaletteEntry {
        sum_r: 9,
        sum_g: 9,
        sum_b: 9,
        sum_var: 9,
        count: 0,
    };
    assert_eq!(e.avg(), (Rgb { r: 0, g: 0, b: 0 }, 0));
}

#[test]
fn entry_average_of_oversized_sums_wraps() {
    let e = PaletteEntry {
        sum_r: 1000,
        sum_g: 256,
        sum_b: 511,
        sum_var: 0x1_0000_0005,
        count: 1,
    };
    assert_eq!(e.avg(), (Rgb { r: 232, g: 0, b: 255 }, 5));
}
