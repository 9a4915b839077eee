use sorter_logic::Rgb;

#[test]
fn from_rgb565_unpacks_and_rescales() {
    assert_eq!(Rgb::from_rgb565(0x0000), Rgb { r: 0, g: 0, b: 0 });
    assert_eq!(Rgb::from_rgb565(0xFFFF), Rgb { r: 255, g: 255, b: 255 });
    assert_eq!(Rgb::from_rgb565(0xF800), Rgb { r: 255, g: 0, b: 0 });
    assert_eq!(Rgb::from_rgb565(0x07E0), Rgb { r: 0, g: 255, b: 0 });
    assert_eq!(Rgb::from_rgb565(0x001F), Rgb { r: 0, g: 0, b: 255 });
    assert_eq!(Rgb::from_rgb565(0x8410), Rgb { r: 131, g: 129, b: 131 });
    assert_eq!(Rgb::from_rgb565(0x1234), Rgb { r: 16, g: 68, b: 164 });
    assert_eq!(Rgb::from_rgb565(0xABCD), Rgb { r: 172, g: 121, b: 106 });
    // one step of each field
    assert_eq!(Rgb::from_rgb565(0x0800), Rgb { r: 8, g: 0, b: 0 });
    assert_eq!(Rgb::from_rgb565(0x0020), Rgb { r: 0, g: 4, b: 0 });
    assert_eq!(Rgb::from_rgb565(0x0001), Rgb { r: 0, g: 0, b: 8 });
}

#[test]
fn from_rgb565_matches_the_formula_everywhere() {
    for p in 0..=u16::MAX {
        let c = Rgb::from_rgb565(p);
        let r = (p >> 11) as u32;
        let g = ((p >> 5) & 63) as u32;
        let b = (p & 31) as u32;
        assert_eq!(c.r as u32, r * 255 / 31);
        assert_eq!(c.g as u32, g * 255 / 63);
        assert_eq!(c.b as u32, b * 255 / 31);
    }
}

#[test]
fn dist_is_the_sum_of_squared_differences() {
    let red = Rgb { r: 255, g: 0, b: 0 };
    let variant = Rgb { r: 250, g: 10, b: 10 };
    assert_eq!(red.dist(&variant), 225);
    assert_eq!(variant.dist(&red), 225);
    assert_eq!(red.dist(&red), 0);
    let black = Rgb { r: 0, g: 0, b: 0 };
    let white = Rgb { r: 255, g: 255, b: 255 };
    assert_eq!(black.dist(&white), 195075);
    assert_eq!(white.dist(&black), 195075);
    assert_eq!(Rgb { r: 1, g: 2, b: 3 }.dist(&Rgb { r: 4, g: 6, b: 8 }), 9 + 16 + 25);
}

#[test]
fn to_lab_of_the_primaries() {
    assert_eq!(Rgb { r: 0, g: 0, b: 0 }.to_lab(), (0, 0, 0));
    assert_eq!(Rgb { r: 255, g: 255, b: 255 }.to_lab(), (100, 0, 0));
    assert_eq!(Rgb { r: 255, g: 0, b: 0 }.to_lab(), (53, 80, 67));
    assert_eq!(Rgb { r: 0, g: 255, b: 0 }.to_lab(), (87, -86, 83));
    assert_eq!(Rgb { r: 0, g: 0, b: 255 }.to_lab(), (32, 79, -107));
    assert_eq!(Rgb { r: 128, g: 128, b: 128 }.to_lab(), (53, 0, 0));
    assert_eq!(Rgb { r: 250, g: 10, b: 10 }.to_lab(), (52, 78, 63));
}

#[test]
fn to_lab_of_dark_colors() {
    // channel values up to 10 lie on the linear segment of the transfer function, and
    // these colors lie on the linear segment of the Lab curve
    assert_eq!(Rgb { r: 10, g: 0, b: 0 }.to_lab(), (0, 2, 0));
    assert_eq!(Rgb { r: 20, g: 0, b: 0 }.to_lab(), (1, 6, 2));
    assert_eq!(Rgb { r: 30, g: 0, b: 0 }.to_lab(), (2, 11, 3));
    assert_eq!(Rgb { r: 40, g: 0, b: 0 }.to_lab(), (4, 18, 6));
}

#[test]
fn to_lab_truncates_toward_zero() {
    // green has a = -86.18 and blue has b = -107.86: both lose their fraction
    assert_eq!(Rgb { r: 0, g: 255, b: 0 }.to_lab().1, -86);
    assert_eq!(Rgb { r: 0, g: 0, b: 255 }.to_lab().2, -107);
    // white has b = -0.01
    assert_eq!(Rgb { r: 255, g: 255, b: 255 }.to_lab().2, 0);
}

#[test]
fn to_lab_stays_in_range() {
    for r in (0..=255u32).step_by(15) {
        for g in (0..=255u32).step_by(15) {
            for b in (0..=255u32).step_by(15) {
                let (l, a, bb) = Rgb {
                    r: r as u8,
                    g: g as u8,
                    b: b as u8,
                }
                .to_lab();
                assert!((0..=100).contains(&l));
                assert!((-128..=127).contains(&a));
                assert!((-128..=127).contains(&bb));
            }
        }
    }
}

#[test]
fn dist_lab_exact_values() {
    let red = Rgb { r: 255, g: 0, b: 0 };
    let variant = Rgb { r: 250, g: 10, b: 10 };
    let blue = Rgb { r: 0, g: 0, b: 255 };
    // (53, 80, 67) against (52, 78, 63) and against (32, 79, -107)
    assert_eq!(red.dist_lab(&variant), 1 + 4 + 16);
    assert_eq!(red.dist_lab(&blue), 21 * 21 + 1 + 174 * 174);
    assert_eq!(red.dist_lab(&red), 0);
    assert_eq!(
        Rgb { r: 0, g: 0, b: 0 }.dist_lab(&Rgb { r: 255, g: 255, b: 255 }),
        10000
    );
}

#[test]
fn dist_lab_is_symmetric() {
    let mut colors = Vec::new();
    for r in (0..=255u32).step_by(51) {
        for g in (0..=255u32).step_by(85) {
            for b in (0..=255u32).step_by(51) {
                colors.push(Rgb {
                    r: r as u8,
                    g: g as u8,
                    b: b as u8,
                });
            }
        }
    }
    for a in &colors {
        for b in &colors {
            assert_eq!(a.dist_lab(b), b.dist_lab(a));
        }
    }
}
