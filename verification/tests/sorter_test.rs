use sorter_logic::BeadSorter;

fn solid(p: u16) -> Vec<u8> {
    let mut data = Vec::with_capacity(2400);
    for _ in 0..1200 {
        data.push((p >> 8) as u8);
        data.push((p & 0xFF) as u8);
    }
    data
}

fn sort(sorter: &mut BeadSorter, p: u16) -> Option<u8> {
    assert!(sorter.has_headroom());
    sorter.get_tube_for_image(&solid(p), 40, 30)
}

/// Thirty colors that are far apart in Lab.
const BASE: [u16; 30] = [
    0x0000, 0x0006, 0x000c, 0x0012, 0x0018, 0x001e, 0x0180, 0x0186, 0x0192, 0x0300, 0x0306,
    0x030c, 0x0312, 0x0318, 0x031e, 0x0480, 0x048c, 0x0600, 0x060c, 0x0618, 0x061e, 0x0780,
    0x078c, 0x0798, 0x3000, 0x3180, 0x318c, 0x6000, 0x6006, 0x600c,
];

#[test]
fn new_sorter_has_headroom() {
    let sorter = BeadSorter::new();
    assert!(sorter.has_headroom());
}

#[test]
fn frame_without_bead_is_unclassified() {
    let mut sorter = BeadSorter::new();
    assert_eq!(sorter.get_tube_for_image(&solid(0xF800), 0, 30), None);
    assert_eq!(sorter.get_tube_for_image(&solid(0xF800), 40, 31), None);
    assert_eq!(sorter.get_tube_for_image(&solid(0xF800)[..18], 9, 1), None);
    // nothing was learned: the next bead opens tube 0
    assert_eq!(sort(&mut sorter, 0xF800), Some(0));
}

#[test]
fn new_colors_open_tubes_in_order() {
    let mut sorter = BeadSorter::new();
    for (i, p) in BASE.iter().enumerate() {
        assert_eq!(sort(&mut sorter, *p), Some(i as u8));
    }
}

#[test]
fn known_color_returns_to_its_tube() {
    let mut sorter = BeadSorter::new();
    assert_eq!(sort(&mut sorter, 0xF800), Some(0));
    assert_eq!(sort(&mut sorter, 0x001F), Some(1));
    assert_eq!(sort(&mut sorter, 0x07E0), Some(2));
    for _ in 0..5 {
        assert_eq!(sort(&mut sorter, 0x001F), Some(1));
        assert_eq!(sort(&mut sorter, 0xF800), Some(0));
        assert_eq!(sort(&mut sorter, 0x07E0), Some(2));
    }
    for (i, p) in [0xF800u16, 0x001F, 0x07E0].iter().enumerate() {
        assert_eq!(sort(&mut sorter, *p), Some(i as u8));
    }
}

#[test]
fn no_tube_beyond_the_thirtieth() {
    let mut sorter = BeadSorter::new();
    for (i, p) in BASE.iter().enumerate() {
        assert_eq!(sort(&mut sorter, *p), Some(i as u8));
    }
    // the roster is full: a new color joins the tube nearest to it in Lab, here that of
    // the last color
    assert_eq!(sort(&mut sorter, 0xb097), Some(29));
    // white is nearest to tube 19
    assert_eq!(sort(&mut sorter, 0xFFFF), Some(19));
    assert_eq!(sort(&mut sorter, 0xFFFF), Some(19));
    // the first thirty keep their tubes
    for (i, p) in BASE.iter().enumerate().rev() {
        assert_eq!(sort(&mut sorter, *p), Some(i as u8));
    }
}

#[test]
fn shared_tube_average_follows_its_samples() {
    let mut sorter = BeadSorter::new();
    for p in BASE {
        sort(&mut sorter, p);
    }
    // one sample of a new color moves the average of tube 29 far enough that the next
    // new color is nearest to tube 29; against the tubes' first colors it would be
    // nearest to tube 4
    assert_eq!(sort(&mut sorter, 0xb097), Some(29));
    assert_eq!(sort(&mut sorter, 0xd0dc), Some(29));

    let mut other = BeadSorter::new();
    for p in BASE {
        sort(&mut other, p);
    }
    assert_eq!(sort(&mut other, 0xd0dc), Some(4));
}

#[test]
fn full_palette_leaves_new_colors_unclassified() {
    let mut sorter = BeadSorter::new();
    let mut words = Vec::new();
    for r in (0..32u16).step_by(3) {
        for g in (0..64u16).step_by(5) {
            for b in (0..32u16).step_by(3) {
                words.push((r << 11) | (g << 5) | b);
            }
        }
    }
    assert_eq!(words.len(), 1573);
    let mut results = Vec::new();
    for p in &words {
        results.push(sort(&mut sorter, *p));
    }
    let mut head: Vec<Option<u8>> = (0..30u8).map(Some).collect();
    head.extend([Some(18), Some(19), Some(20), Some(22), Some(22)]);
    assert_eq!(&results[..35], &head[..]);
    for r in &results {
        if let Some(t) = r {
            assert!(*t < 30);
        }
    }
    // the 128 slots are taken after 130 beads
    assert_eq!(results.iter().position(|r| r.is_none()), Some(130));
    assert_eq!(words[130], 0x06fb);
    assert_eq!(results.iter().filter(|r| r.is_none()).count(), 1278);
    // known colors still sort, the unclassified one stays so
    assert_eq!(sort(&mut sorter, words[0]), Some(0));
    assert_eq!(sort(&mut sorter, words[130]), None);
}
