use vstd::prelude::*;
use crate::color::Rgb;

verus! {

/// Linear-light channel values are held in units of one part in `LINEAR_SCALE`.
pub const LINEAR_SCALE: u64 = 1_000_000_000;

/// Values of the Lab transfer curve are held in units of one part in `CURVE_SCALE`.
pub const CURVE_SCALE: u64 = 1_000_000;

/// The third power.
pub open spec fn cube(x: int) -> int {
    x * x * x
}

/// The fifth power.
pub open spec fn pow5(x: int) -> int {
    x * x * x * x * x
}

/// The twelfth power.
pub open spec fn pow12(x: int) -> int {
    let x3 = x * x * x;
    let x6 = x3 * x3;
    x6 * x6
}

/// `v` is the integer part of `LINEAR_SCALE * ((c / 255 + 0.055) / 1.055) ^ 2.4`.
///
/// The base of the power is the fraction `(40 c + 561) / 10761`, and `v <= s * b ^ (12 / 5)`
/// is `v ^ 5 <= s ^ 5 * b ^ 12`.
pub open spec fn is_gamma_level(c: int, v: int) -> bool {
    let p = 40 * c + 561;
    &&& 0 <= v
    &&& pow5(v) * pow12(10761) <= pow5(LINEAR_SCALE as int) * pow12(p)
    &&& pow5(LINEAR_SCALE as int) * pow12(p) < pow5(v + 1) * pow12(10761)
}

/// The linear-light value of an 8-bit sRGB channel value, scaled by `LINEAR_SCALE` and
/// truncated: `c / 255 / 12.92` up to the threshold 0.04045, which lies between the
/// channel values 10 and 11, and the 2.4 power above it.
pub open spec fn linear_level(c: int) -> int {
    if c <= 10 {
        (LINEAR_SCALE * c * 5) / 16473
    } else {
        choose|v: int| is_gamma_level(c, v)
    }
}

/// `f` is the integer part of `CURVE_SCALE` times the cube root of `num / den`.
pub open spec fn is_root_level(num: int, den: int, f: int) -> bool {
    &&& 0 <= f
    &&& cube(f) * den <= cube(CURVE_SCALE as int) * num
    &&& cube(CURVE_SCALE as int) * num < cube(f + 1) * den
}

/// The Lab transfer curve at `t = num / den`, scaled by `CURVE_SCALE` and truncated: the
/// cube root of `t` above 0.008856, and `7.787 t + 16 / 116` up to it.
pub open spec fn curve_level(num: int, den: int) -> int {
    if num * 1_000_000 > 8856 * den {
        choose|f: int| is_root_level(num, den, f)
    } else {
        (CURVE_SCALE * (225823 * num + 4000 * den)) / (29000 * den)
    }
}

/// Division that rounds toward zero.
pub open spec fn toward_zero(n: int, d: int) -> int {
    if n >= 0 {
        n / d
    } else {
        -((-n) / d)
    }
}

/// The X tristimulus sum of a color's linear-light channels, ten thousand times the
/// value that the sRGB matrix gives (0.4124, 0.3576, 0.1805).
pub open spec fn mix_x(c: Rgb) -> int {
    4124 * linear_level(c.r as int) + 3576 * linear_level(c.g as int) + 1805 * linear_level(
        c.b as int,
    )
}

/// The Y tristimulus sum, likewise (0.2126, 0.7152, 0.0722).
pub open spec fn mix_y(c: Rgb) -> int {
    2126 * linear_level(c.r as int) + 7152 * linear_level(c.g as int) + 722 * linear_level(
        c.b as int,
    )
}

/// The Z tristimulus sum, likewise (0.0193, 0.1192, 0.9505).
pub open spec fn mix_z(c: Rgb) -> int {
    193 * linear_level(c.r as int) + 1192 * linear_level(c.g as int) + 9505 * linear_level(
        c.b as int,
    )
}

/// The transfer curve at X relative to the D65 white point (95.047, 100.0, 108.883).
pub open spec fn curve_x(c: Rgb) -> int {
    curve_level(10 * mix_x(c), 95047 * LINEAR_SCALE)
}

/// The transfer curve at Y relative to the white point.
pub open spec fn curve_y(c: Rgb) -> int {
    curve_level(mix_y(c), 10000 * LINEAR_SCALE)
}

/// The transfer curve at Z relative to the white point.
pub open spec fn curve_z(c: Rgb) -> int {
    curve_level(10 * mix_z(c), 108883 * LINEAR_SCALE)
}

/// The CIE Lab coordinates of an sRGB color, each rounded toward zero:
/// `L = 116 fy - 16`, `a = 500 (fx - fy)`, `b = 200 (fy - fz)`.
///
/// The conversion is carried out in integers. The linear-light channels and the values
/// of the transfer curve are the integer parts of the exact quantities at their scales,
/// so every color has one result, the same on every machine.
pub open spec fn lab_of(c: Rgb) -> (int, int, int) {
    (
        toward_zero(116 * curve_y(c) - 16 * CURVE_SCALE, CURVE_SCALE as int),
        toward_zero(500 * (curve_x(c) - curve_y(c)), CURVE_SCALE as int),
        toward_zero(200 * (curve_y(c) - curve_z(c)), CURVE_SCALE as int),
    )
}

/// Squared distance of two Lab triples; no square root is taken.
pub open spec fn lab_dist(p: (int, int, int), q: (int, int, int)) -> int {
    (p.0 - q.0) * (p.0 - q.0) + (p.1 - q.1) * (p.1 - q.1) + (p.2 - q.2) * (p.2 - q.2)
}

/// Squared Lab distance of two colors.
#[verifier::opaque]
pub open spec fn color_dist(a: Rgb, b: Rgb) -> int {
    lab_dist(lab_of(a), lab_of(b))
}

/// The range that Lab coordinates stay in.
pub open spec fn lab_in_range(p: (int, int, int)) -> bool {
    &&& -16 <= p.0 <= 216
    &&& -1000 <= p.1 <= 1000
    &&& -400 <= p.2 <= 400
}

proof fn lemma_product_monotone(a: int, b: int, c: int, d: int)
    requires
        0 <= a <= b,
        0 <= c <= d,
    ensures
        0 <= a * c <= b * d,
{
    assert(0 <= a * c <= b * d) by (nonlinear_arith)
        requires
            0 <= a <= b,
            0 <= c <= d,
    ;
}

proof fn lemma_cube_monotone(a: int, b: int)
    requires
        0 <= a <= b,
    ensures
        0 <= cube(a) <= cube(b),
{
    lemma_product_monotone(a, b, a, b);
    lemma_product_monotone(a * a, b * b, a, b);
}

proof fn lemma_pow5_monotone(a: int, b: int)
    requires
        0 <= a <= b,
    ensures
        0 <= pow5(a) <= pow5(b),
{
    lemma_product_monotone(a, b, a, b);
    lemma_product_monotone(a * a, b * b, a, b);
    lemma_product_monotone(a * a * a, b * b * b, a, b);
    lemma_product_monotone(a * a * a * a, b * b * b * b, a, b);
}

/// At most one number is the integer part of a given gamma power.
proof fn lemma_gamma_level_unique(c: int, v: int, w: int)
    requires
        is_gamma_level(c, v),
        is_gamma_level(c, w),
    ensures
        v == w,
{
    let q = pow12(10761);
    let top = pow5(LINEAR_SCALE as int) * pow12(40 * c + 561);
    assert(q > 0) by (nonlinear_arith)
        requires
            q == pow12(10761),
    ;
    if v < w {
        lemma_pow5_monotone(v + 1, w);
        assert(pow5(v + 1) * q <= pow5(w) * q) by (nonlinear_arith)
            requires
                pow5(v + 1) <= pow5(w),
                q > 0,
        ;
    }
    if w < v {
        lemma_pow5_monotone(w + 1, v);
        assert(pow5(w + 1) * q <= pow5(v) * q) by (nonlinear_arith)
            requires
                pow5(w + 1) <= pow5(v),
                q > 0,
        ;
    }
}

/// At most one number is the integer part of a given scaled cube root.
proof fn lemma_root_level_unique(num: int, den: int, f: int, g: int)
    requires
        den > 0,
        is_root_level(num, den, f),
        is_root_level(num, den, g),
    ensures
        f == g,
{
    if f < g {
        lemma_cube_monotone(f + 1, g);
        assert(cube(f + 1) * den <= cube(g) * den) by (nonlinear_arith)
            requires
                cube(f + 1) <= cube(g),
                den > 0,
        ;
    }
    if g < f {
        lemma_cube_monotone(g + 1, f);
        assert(cube(g + 1) * den <= cube(f) * den) by (nonlinear_arith)
            requires
                cube(g + 1) <= cube(f),
                den > 0,
        ;
    }
}

/// The gamma power of the channel values above the linear segment.
fn gamma_level(c: u8) -> (v: u64)
    requires
        c >= 11,
    ensures
        is_gamma_level(c as int, v as int),
        v <= LINEAR_SCALE,
    no_unwind
{
    match c {
        11 => {
            assert(is_gamma_level(11, 3_346_535)) by (nonlinear_arith);
            3_346_535
        },
        12 => {
            assert(is_gamma_level(12, 3_676_507)) by (nonlinear_arith);
            3_676_507
        },
        13 => {
            assert(is_gamma_level(13, 4_024_717)) by (nonlinear_arith);
            4_024_717
        },
        14 => {
            assert(is_gamma_level(14, 4_391_442)) by (nonlinear_arith);
            4_391_442
        },
        15 => {
            assert(is_gamma_level(15, 4_776_953)) by (nonlinear_arith);
            4_776_953
        },
        16 => {
            assert(is_gamma_level(16, 5_181_516)) by (nonlinear_arith);
            5_181_516
        },
        17 => {
            assert(is_gamma_level(17, 5_605_391)) by (nonlinear_arith);
            5_605_391
        },
        18 => {
            assert(is_gamma_level(18, 6_048_833)) by (nonlinear_arith);
            6_048_833
        },
        19 => {
            assert(is_gamma_level(19, 6_512_090)) by (nonlinear_arith);
            6_512_090
        },
        20 => {
            assert(is_gamma_level(20, 6_995_410)) by (nonlinear_arith);
            6_995_410
        },
        21 => {
            assert(is_gamma_level(21, 7_499_032)) by (nonlinear_arith);
            7_499_032
        },
        22 => {
            assert(is_gamma_level(22, 8_023_192)) by (nonlinear_arith);
            8_023_192
        },
        23 => {
            assert(is_gamma_level(23, 8_568_125)) by (nonlinear_arith);
            8_568_125
        },
        24 => {
            assert(is_gamma_level(24, 9_134_058)) by (nonlinear_arith);
            9_134_058
        },
        25 => {
            assert(is_gamma_level(25, 9_721_217)) by (nonlinear_arith);
            9_721_217
        },
        26 => {
            assert(is_gamma_level(26, 10_329_823)) by (nonlinear_arith);
            10_329_823
        },
        27 => {
            assert(is_gamma_level(27, 10_960_094)) by (nonlinear_arith);
            10_960_094
        },
        28 => {
            assert(is_gamma_level(28, 11_612_245)) by (nonlinear_arith);
            11_612_245
        },
        29 => {
            assert(is_gamma_level(29, 12_286_488)) by (nonlinear_arith);
            12_286_488
        },
        30 => {
            assert(is_gamma_level(30, 12_983_032)) by (nonlinear_arith);
            12_983_032
        },
        31 => {
            assert(is_gamma_level(31, 13_702_083)) by (nonlinear_arith);
            13_702_083
        },
        32 => {
            assert(is_gamma_level(32, 14_443_843)) by (nonlinear_arith);
            14_443_843
        },
        33 => {
            assert(is_gamma_level(33, 15_208_514)) by (nonlinear_arith);
            15_208_514
        },
        34 => {
            assert(is_gamma_level(34, 15_996_293)) by (nonlinear_arith);
            15_996_293
        },
        35 => {
            assert(is_gamma_level(35, 16_807_375)) by (nonlinear_arith);
            16_807_375
        },
        36 => {
            assert(is_gamma_level(36, 17_641_954)) by (nonlinear_arith);
            17_641_954
        },
        37 => {
            assert(is_gamma_level(37, 18_500_220)) by (nonlinear_arith);
            18_500_220
        },
        38 => {
            assert(is_gamma_level(38, 19_382_360)) by (nonlinear_arith);
            19_382_360
        },
        39 => {
            assert(is_gamma_level(39, 20_288_563)) by (nonlinear_arith);
            20_288_563
        },
        40 => {
            assert(is_gamma_level(40, 21_219_010)) by (nonlinear_arith);
            21_219_010
        },
        41 => {
            assert(is_gamma_level(41, 22_173_884)) by (nonlinear_arith);
            22_173_884
        },
        42 => {
            assert(is_gamma_level(42, 23_153_366)) by (nonlinear_arith);
            23_153_366
        },
        43 => {
            assert(is_gamma_level(43, 24_157_632)) by (nonlinear_arith);
            24_157_632
        },
        44 => {
            assert(is_gamma_level(44, 25_186_859)) by (nonlinear_arith);
            25_186_859
        },
        45 => {
            assert(is_gamma_level(45, 26_241_221)) by (nonlinear_arith);
            26_241_221
        },
        46 => {
            assert(is_gamma_level(46, 27_320_891)) by (nonlinear_arith);
            27_320_891
        },
        47 => {
            assert(is_gamma_level(47, 28_426_039)) by (nonlinear_arith);
            28_426_039
        },
        48 => {
            assert(is_gamma_level(48, 29_556_834)) by (nonlinear_arith);
            29_556_834
        },
        49 => {
            assert(is_gamma_level(49, 30_713_443)) by (nonlinear_arith);
            30_713_443
        },
        50 => {
            assert(is_gamma_level(50, 31_896_033)) by (nonlinear_arith);
            31_896_033
        },
        51 => {
            assert(is_gamma_level(51, 33_104_766)) by (nonlinear_arith);
            33_104_766
        },
        52 => {
            assert(is_gamma_level(52, 34_339_806)) by (nonlinear_arith);
            34_339_806
        },
        53 => {
            assert(is_gamma_level(53, 35_601_314)) by (nonlinear_arith);
            35_601_314
        },
        54 => {
            assert(is_gamma_level(54, 36_889_450)) by (nonlinear_arith);
            36_889_450
        },
        55 => {
            assert(is_gamma_level(55, 38_204_371)) by (nonlinear_arith);
            38_204_371
        },
        56 => {
            assert(is_gamma_level(56, 39_546_235)) by (nonlinear_arith);
            39_546_235
        },
        57 => {
            assert(is_gamma_level(57, 40_915_196)) by (nonlinear_arith);
            40_915_196
        },
        58 => {
            assert(is_gamma_level(58, 42_311_410)) by (nonlinear_arith);
            42_311_410
        },
        59 => {
            assert(is_gamma_level(59, 43_735_029)) by (nonlinear_arith);
            43_735_029
        },
        60 => {
            assert(is_gamma_level(60, 45_186_204)) by (nonlinear_arith);
            45_186_204
        },
        61 => {
            assert(is_gamma_level(61, 46_665_086)) by (nonlinear_arith);
            46_665_086
        },
        62 => {
            assert(is_gamma_level(62, 48_171_824)) by (nonlinear_arith);
            48_171_824
        },
        63 => {
            assert(is_gamma_level(63, 49_706_565)) by (nonlinear_arith);
            49_706_565
        },
        64 => {
            assert(is_gamma_level(64, 51_269_458)) by (nonlinear_arith);
            51_269_458
        },
        65 => {
            assert(is_gamma_level(65, 52_860_647)) by (nonlinear_arith);
            52_860_647
        },
        66 => {
            assert(is_gamma_level(66, 54_480_276)) by (nonlinear_arith);
            54_480_276
        },
        67 => {
            assert(is_gamma_level(67, 56_128_490)) by (nonlinear_arith);
            56_128_490
        },
        68 => {
            assert(is_gamma_level(68, 57_805_430)) by (nonlinear_arith);
            57_805_430
        },
        69 => {
            assert(is_gamma_level(69, 59_511_238)) by (nonlinear_arith);
            59_511_238
        },
        70 => {
            assert(is_gamma_level(70, 61_246_054)) by (nonlinear_arith);
            61_246_054
        },
        71 => {
            assert(is_gamma_level(71, 63_010_017)) by (nonlinear_arith);
            63_010_017
        },
        72 => {
            assert(is_gamma_level(72, 64_803_266)) by (nonlinear_arith);
            64_803_266
        },
        73 => {
            assert(is_gamma_level(73, 66_625_938)) by (nonlinear_arith);
            66_625_938
        },
        74 => {
            assert(is_gamma_level(74, 68_478_169)) by (nonlinear_arith);
            68_478_169
        },
        75 => {
            assert(is_gamma_level(75, 70_360_095)) by (nonlinear_arith);
            70_360_095
        },
        76 => {
            assert(is_gamma_level(76, 72_271_850)) by (nonlinear_arith);
            72_271_850
        },
        77 => {
            assert(is_gamma_level(77, 74_213_568)) by (nonlinear_arith);
            74_213_568
        },
        78 => {
            assert(is_gamma_level(78, 76_185_381)) by (nonlinear_arith);
            76_185_381
        },
        79 => {
            assert(is_gamma_level(79, 78_187_421)) by (nonlinear_arith);
            78_187_421
        },
        80 => {
            assert(is_gamma_level(80, 80_219_820)) by (nonlinear_arith);
            80_219_820
        },
        81 => {
            assert(is_gamma_level(81, 82_282_707)) by (nonlinear_arith);
            82_282_707
        },
        82 => {
            assert(is_gamma_level(82, 84_376_211)) by (nonlinear_arith);
            84_376_211
        },
        83 => {
            assert(is_gamma_level(83, 86_500_462)) by (nonlinear_arith);
            86_500_462
        },
        84 => {
            assert(is_gamma_level(84, 88_655_586)) by (nonlinear_arith);
            88_655_586
        },
        85 => {
            assert(is_gamma_level(85, 90_841_711)) by (nonlinear_arith);
            90_841_711
        },
        86 => {
            assert(is_gamma_level(86, 93_058_962)) by (nonlinear_arith);
            93_058_962
        },
        87 => {
            assert(is_gamma_level(87, 95_307_466)) by (nonlinear_arith);
            95_307_466
        },
        88 => {
            assert(is_gamma_level(88, 97_587_347)) by (nonlinear_arith);
            97_587_347
        },
        89 => {
            assert(is_gamma_level(89, 99_898_728)) by (nonlinear_arith);
            99_898_728
        },
        90 => {
            assert(is_gamma_level(90, 102_241_733)) by (nonlinear_arith);
            102_241_733
        },
        91 => {
            assert(is_gamma_level(91, 104_616_484)) by (nonlinear_arith);
            104_616_484
        },
        92 => {
            assert(is_gamma_level(92, 107_023_102)) by (nonlinear_arith);
            107_023_102
        },
        93 => {
            assert(is_gamma_level(93, 109_461_710)) by (nonlinear_arith);
            109_461_710
        },
        94 => {
            assert(is_gamma_level(94, 111_932_427)) by (nonlinear_arith);
            111_932_427
        },
        95 => {
            assert(is_gamma_level(95, 114_435_373)) by (nonlinear_arith);
            114_435_373
        },
        96 => {
            assert(is_gamma_level(96, 116_970_667)) by (nonlinear_arith);
            116_970_667
        },
        97 => {
            assert(is_gamma_level(97, 119_538_427)) by (nonlinear_arith);
            119_538_427
        },
        98 => {
            assert(is_gamma_level(98, 122_138_772)) by (nonlinear_arith);
            122_138_772
        },
        99 => {
            assert(is_gamma_level(99, 124_771_817)) by (nonlinear_arith);
            124_771_817
        },
        100 => {
            assert(is_gamma_level(100, 127_437_680)) by (nonlinear_arith);
            127_437_680
        },
        101 => {
            assert(is_gamma_level(101, 130_136_476)) by (nonlinear_arith);
            130_136_476
        },
        102 => {
            assert(is_gamma_level(102, 132_868_321)) by (nonlinear_arith);
            132_868_321
        },
        103 => {
            assert(is_gamma_level(103, 135_633_329)) by (nonlinear_arith);
            135_633_329
        },
        104 => {
            assert(is_gamma_level(104, 138_431_615)) by (nonlinear_arith);
            138_431_615
        },
        105 => {
            assert(is_gamma_level(105, 141_263_291)) by (nonlinear_arith);
            141_263_291
        },
        106 => {
            assert(is_gamma_level(106, 144_128_470)) by (nonlinear_arith);
            144_128_470
        },
        107 => {
            assert(is_gamma_level(107, 147_027_266)) by (nonlinear_arith);
            147_027_266
        },
        108 => {
            assert(is_gamma_level(108, 149_959_789)) by (nonlinear_arith);
            149_959_789
        },
        109 => {
            assert(is_gamma_level(109, 152_926_151)) by (nonlinear_arith);
            152_926_151
        },
        110 => {
            assert(is_gamma_level(110, 155_926_463)) by (nonlinear_arith);
            155_926_463
        },
        111 => {
            assert(is_gamma_level(111, 158_960_835)) by (nonlinear_arith);
            158_960_835
        },
        112 => {
            assert(is_gamma_level(112, 162_029_375)) by (nonlinear_arith);
            162_029_375
        },
        113 => {
            assert(is_gamma_level(113, 165_132_194)) by (nonlinear_arith);
            165_132_194
        },
        114 => {
            assert(is_gamma_level(114, 168_269_400)) by (nonlinear_arith);
            168_269_400
        },
        115 => {
            assert(is_gamma_level(115, 171_441_100)) by (nonlinear_arith);
            171_441_100
        },
        116 => {
            assert(is_gamma_level(116, 174_647_403)) by (nonlinear_arith);
            174_647_403
        },
        117 => {
            assert(is_gamma_level(117, 177_888_415)) by (nonlinear_arith);
            177_888_415
        },
        118 => {
            assert(is_gamma_level(118, 181_164_244)) by (nonlinear_arith);
            181_164_244
        },
        119 => {
            assert(is_gamma_level(119, 184_474_994)) by (nonlinear_arith);
            184_474_994
        },
        120 => {
            assert(is_gamma_level(120, 187_820_772)) by (nonlinear_arith);
            187_820_772
        },
        121 => {
            assert(is_gamma_level(121, 191_201_682)) by (nonlinear_arith);
            191_201_682
        },
        122 => {
            assert(is_gamma_level(122, 194_617_830)) by (nonlinear_arith);
            194_617_830
        },
        123 => {
            assert(is_gamma_level(123, 198_069_319)) by (nonlinear_arith);
            198_069_319
        },
        124 => {
            assert(is_gamma_level(124, 201_556_253)) by (nonlinear_arith);
            201_556_253
        },
        125 => {
            assert(is_gamma_level(125, 205_078_736)) by (nonlinear_arith);
            205_078_736
        },
        126 => {
            assert(is_gamma_level(126, 208_636_870)) by (nonlinear_arith);
            208_636_870
        },
        127 => {
            assert(is_gamma_level(127, 212_230_757)) by (nonlinear_arith);
            212_230_757
        },
        128 => {
            assert(is_gamma_level(128, 215_860_500)) by (nonlinear_arith);
            215_860_500
        },
        129 => {
            assert(is_gamma_level(129, 219_526_199)) by (nonlinear_arith);
            219_526_199
        },
        130 => {
            assert(is_gamma_level(130, 223_227_957)) by (nonlinear_arith);
            223_227_957
        },
        131 => {
            assert(is_gamma_level(131, 226_965_873)) by (nonlinear_arith);
            226_965_873
        },
        132 => {
            assert(is_gamma_level(132, 230_740_048)) by (nonlinear_arith);
            230_740_048
        },
        133 => {
            assert(is_gamma_level(133, 234_550_582)) by (nonlinear_arith);
            234_550_582
        },
        134 => {
            assert(is_gamma_level(134, 238_397_573)) by (nonlinear_arith);
            238_397_573
        },
        135 => {
            assert(is_gamma_level(135, 242_281_122)) by (nonlinear_arith);
            242_281_122
        },
        136 => {
            assert(is_gamma_level(136, 246_201_326)) by (nonlinear_arith);
            246_201_326
        },
        137 => {
            assert(is_gamma_level(137, 250_158_284)) by (nonlinear_arith);
            250_158_284
        },
        138 => {
            assert(is_gamma_level(138, 254_152_094)) by (nonlinear_arith);
            254_152_094
        },
        139 => {
            assert(is_gamma_level(139, 258_182_852)) by (nonlinear_arith);
            258_182_852
        },
        140 => {
            assert(is_gamma_level(140, 262_250_657)) by (nonlinear_arith);
            262_250_657
        },
        141 => {
            assert(is_gamma_level(141, 266_355_604)) by (nonlinear_arith);
            266_355_604
        },
        142 => {
            assert(is_gamma_level(142, 270_497_791)) by (nonlinear_arith);
            270_497_791
        },
        143 => {
            assert(is_gamma_level(143, 274_677_312)) by (nonlinear_arith);
            274_677_312
        },
        144 => {
            assert(is_gamma_level(144, 278_894_263)) by (nonlinear_arith);
            278_894_263
        },
        145 => {
            assert(is_gamma_level(145, 283_148_740)) by (nonlinear_arith);
            283_148_740
        },
        146 => {
            assert(is_gamma_level(146, 287_440_837)) by (nonlinear_arith);
            287_440_837
        },
        147 => {
            assert(is_gamma_level(147, 291_770_649)) by (nonlinear_arith);
            291_770_649
        },
        148 => {
            assert(is_gamma_level(148, 296_138_270)) by (nonlinear_arith);
            296_138_270
        },
        149 => {
            assert(is_gamma_level(149, 300_543_794)) by (nonlinear_arith);
            300_543_794
        },
        150 => {
            assert(is_gamma_level(150, 304_987_314)) by (nonlinear_arith);
            304_987_314
        },
        151 => {
            assert(is_gamma_level(151, 309_468_922)) by (nonlinear_arith);
            309_468_922
        },
        152 => {
            assert(is_gamma_level(152, 313_988_713)) by (nonlinear_arith);
            313_988_713
        },
        153 => {
            assert(is_gamma_level(153, 318_546_778)) by (nonlinear_arith);
            318_546_778
        },
        154 => {
            assert(is_gamma_level(154, 323_143_209)) by (nonlinear_arith);
            323_143_209
        },
        155 => {
            assert(is_gamma_level(155, 327_778_098)) by (nonlinear_arith);
            327_778_098
        },
        156 => {
            assert(is_gamma_level(156, 332_451_536)) by (nonlinear_arith);
            332_451_536
        },
        157 => {
            assert(is_gamma_level(157, 337_163_615)) by (nonlinear_arith);
            337_163_615
        },
        158 => {
            assert(is_gamma_level(158, 341_914_424)) by (nonlinear_arith);
            341_914_424
        },
        159 => {
            assert(is_gamma_level(159, 346_704_056)) by (nonlinear_arith);
            346_704_056
        },
        160 => {
            assert(is_gamma_level(160, 351_532_599)) by (nonlinear_arith);
            351_532_599
        },
        161 => {
            assert(is_gamma_level(161, 356_400_144)) by (nonlinear_arith);
            356_400_144
        },
        162 => {
            assert(is_gamma_level(162, 361_306_779)) by (nonlinear_arith);
            361_306_779
        },
        163 => {
            assert(is_gamma_level(163, 366_252_595)) by (nonlinear_arith);
            366_252_595
        },
        164 => {
            assert(is_gamma_level(164, 371_237_680)) by (nonlinear_arith);
            371_237_680
        },
        165 => {
            assert(is_gamma_level(165, 376_262_122)) by (nonlinear_arith);
            376_262_122
        },
        166 => {
            assert(is_gamma_level(166, 381_326_011)) by (nonlinear_arith);
            381_326_011
        },
        167 => {
            assert(is_gamma_level(167, 386_429_433)) by (nonlinear_arith);
            386_429_433
        },
        168 => {
            assert(is_gamma_level(168, 391_572_477)) by (nonlinear_arith);
            391_572_477
        },
        169 => {
            assert(is_gamma_level(169, 396_755_230)) by (nonlinear_arith);
            396_755_230
        },
        170 => {
            assert(is_gamma_level(170, 401_977_779)) by (nonlinear_arith);
            401_977_779
        },
        171 => {
            assert(is_gamma_level(171, 407_240_211)) by (nonlinear_arith);
            407_240_211
        },
        172 => {
            assert(is_gamma_level(172, 412_542_613)) by (nonlinear_arith);
            412_542_613
        },
        173 => {
            assert(is_gamma_level(173, 417_885_070)) by (nonlinear_arith);
            417_885_070
        },
        174 => {
            assert(is_gamma_level(174, 423_267_669)) by (nonlinear_arith);
            423_267_669
        },
        175 => {
            assert(is_gamma_level(175, 428_690_496)) by (nonlinear_arith);
            428_690_496
        },
        176 => {
            assert(is_gamma_level(176, 434_153_636)) by (nonlinear_arith);
            434_153_636
        },
        177 => {
            assert(is_gamma_level(177, 439_657_173)) by (nonlinear_arith);
            439_657_173
        },
        178 => {
            assert(is_gamma_level(178, 445_201_194)) by (nonlinear_arith);
            445_201_194
        },
        179 => {
            assert(is_gamma_level(179, 450_785_782)) by (nonlinear_arith);
            450_785_782
        },
        180 => {
            assert(is_gamma_level(180, 456_411_023)) by (nonlinear_arith);
            456_411_023
        },
        181 => {
            assert(is_gamma_level(181, 462_076_999)) by (nonlinear_arith);
            462_076_999
        },
        182 => {
            assert(is_gamma_level(182, 467_783_796)) by (nonlinear_arith);
            467_783_796
        },
        183 => {
            assert(is_gamma_level(183, 473_531_496)) by (nonlinear_arith);
            473_531_496
        },
        184 => {
            assert(is_gamma_level(184, 479_320_183)) by (nonlinear_arith);
            479_320_183
        },
        185 => {
            assert(is_gamma_level(185, 485_149_940)) by (nonlinear_arith);
            485_149_940
        },
        186 => {
            assert(is_gamma_level(186, 491_020_849)) by (nonlinear_arith);
            491_020_849
        },
        187 => {
            assert(is_gamma_level(187, 496_932_995)) by (nonlinear_arith);
            496_932_995
        },
        188 => {
            assert(is_gamma_level(188, 502_886_458)) by (nonlinear_arith);
            502_886_458
        },
        189 => {
            assert(is_gamma_level(189, 508_881_320)) by (nonlinear_arith);
            508_881_320
        },
        190 => {
            assert(is_gamma_level(190, 514_917_665)) by (nonlinear_arith);
            514_917_665
        },
        191 => {
            assert(is_gamma_level(191, 520_995_573)) by (nonlinear_arith);
            520_995_573
        },
        192 => {
            assert(is_gamma_level(192, 527_115_125)) by (nonlinear_arith);
            527_115_125
        },
        193 => {
            assert(is_gamma_level(193, 533_276_404)) by (nonlinear_arith);
            533_276_404
        },
        194 => {
            assert(is_gamma_level(194, 539_479_489)) by (nonlinear_arith);
            539_479_489
        },
        195 => {
            assert(is_gamma_level(195, 545_724_461)) by (nonlinear_arith);
            545_724_461
        },
        196 => {
            assert(is_gamma_level(196, 552_011_401)) by (nonlinear_arith);
            552_011_401
        },
        197 => {
            assert(is_gamma_level(197, 558_340_389)) by (nonlinear_arith);
            558_340_389
        },
        198 => {
            assert(is_gamma_level(198, 564_711_505)) by (nonlinear_arith);
            564_711_505
        },
        199 => {
            assert(is_gamma_level(199, 571_124_829)) by (nonlinear_arith);
            571_124_829
        },
        200 => {
            assert(is_gamma_level(200, 577_580_440)) by (nonlinear_arith);
            577_580_440
        },
        201 => {
            assert(is_gamma_level(201, 584_078_417)) by (nonlinear_arith);
            584_078_417
        },
        202 => {
            assert(is_gamma_level(202, 590_618_840)) by (nonlinear_arith);
            590_618_840
        },
        203 => {
            assert(is_gamma_level(203, 597_201_788)) by (nonlinear_arith);
            597_201_788
        },
        204 => {
            assert(is_gamma_level(204, 603_827_338)) by (nonlinear_arith);
            603_827_338
        },
        205 => {
            assert(is_gamma_level(205, 610_495_570)) by (nonlinear_arith);
            610_495_570
        },
        206 => {
            assert(is_gamma_level(206, 617_206_562)) by (nonlinear_arith);
            617_206_562
        },
        207 => {
            assert(is_gamma_level(207, 623_960_391)) by (nonlinear_arith);
            623_960_391
        },
        208 => {
            assert(is_gamma_level(208, 630_757_136)) by (nonlinear_arith);
            630_757_136
        },
        209 => {
            assert(is_gamma_level(209, 637_596_873)) by (nonlinear_arith);
            637_596_873
        },
        210 => {
            assert(is_gamma_level(210, 644_479_681)) by (nonlinear_arith);
            644_479_681
        },
        211 => {
            assert(is_gamma_level(211, 651_405_637)) by (nonlinear_arith);
            651_405_637
        },
        212 => {
            assert(is_gamma_level(212, 658_374_817)) by (nonlinear_arith);
            658_374_817
        },
        213 => {
            assert(is_gamma_level(213, 665_387_298)) by (nonlinear_arith);
            665_387_298
        },
        214 => {
            assert(is_gamma_level(214, 672_443_156)) by (nonlinear_arith);
            672_443_156
        },
        215 => {
            assert(is_gamma_level(215, 679_542_469)) by (nonlinear_arith);
            679_542_469
        },
        216 => {
            assert(is_gamma_level(216, 686_685_312)) by (nonlinear_arith);
            686_685_312
        },
        217 => {
            assert(is_gamma_level(217, 693_871_761)) by (nonlinear_arith);
            693_871_761
        },
        218 => {
            assert(is_gamma_level(218, 701_101_891)) by (nonlinear_arith);
            701_101_891
        },
        219 => {
            assert(is_gamma_level(219, 708_375_779)) by (nonlinear_arith);
            708_375_779
        },
        220 => {
            assert(is_gamma_level(220, 715_693_500)) by (nonlinear_arith);
            715_693_500
        },
        221 => {
            assert(is_gamma_level(221, 723_055_128)) by (nonlinear_arith);
            723_055_128
        },
        222 => {
            assert(is_gamma_level(222, 730_460_740)) by (nonlinear_arith);
            730_460_740
        },
        223 => {
            assert(is_gamma_level(223, 737_910_408)) by (nonlinear_arith);
            737_910_408
        },
        224 => {
            assert(is_gamma_level(224, 745_404_209)) by (nonlinear_arith);
            745_404_209
        },
        225 => {
            assert(is_gamma_level(225, 752_942_216)) by (nonlinear_arith);
            752_942_216
        },
        226 => {
            assert(is_gamma_level(226, 760_524_504)) by (nonlinear_arith);
            760_524_504
        },
        227 => {
            assert(is_gamma_level(227, 768_151_147)) by (nonlinear_arith);
            768_151_147
        },
        228 => {
            assert(is_gamma_level(228, 775_822_218)) by (nonlinear_arith);
            775_822_218
        },
        229 => {
            assert(is_gamma_level(229, 783_537_791)) by (nonlinear_arith);
            783_537_791
        },
        230 => {
            assert(is_gamma_level(230, 791_297_940)) by (nonlinear_arith);
            791_297_940
        },
        231 => {
            assert(is_gamma_level(231, 799_102_738)) by (nonlinear_arith);
            799_102_738
        },
        232 => {
            assert(is_gamma_level(232, 806_952_257)) by (nonlinear_arith);
            806_952_257
        },
        233 => {
            assert(is_gamma_level(233, 814_846_572)) by (nonlinear_arith);
            814_846_572
        },
        234 => {
            assert(is_gamma_level(234, 822_785_754)) by (nonlinear_arith);
            822_785_754
        },
        235 => {
            assert(is_gamma_level(235, 830_769_876)) by (nonlinear_arith);
            830_769_876
        },
        236 => {
            assert(is_gamma_level(236, 838_799_011)) by (nonlinear_arith);
            838_799_011
        },
        237 => {
            assert(is_gamma_level(237, 846_873_231)) by (nonlinear_arith);
            846_873_231
        },
        238 => {
            assert(is_gamma_level(238, 854_992_608)) by (nonlinear_arith);
            854_992_608
        },
        239 => {
            assert(is_gamma_level(239, 863_157_213)) by (nonlinear_arith);
            863_157_213
        },
        240 => {
            assert(is_gamma_level(240, 871_367_119)) by (nonlinear_arith);
            871_367_119
        },
        241 => {
            assert(is_gamma_level(241, 879_622_396)) by (nonlinear_arith);
            879_622_396
        },
        242 => {
            assert(is_gamma_level(242, 887_923_117)) by (nonlinear_arith);
            887_923_117
        },
        243 => {
            assert(is_gamma_level(243, 896_269_353)) by (nonlinear_arith);
            896_269_353
        },
        244 => {
            assert(is_gamma_level(244, 904_661_174)) by (nonlinear_arith);
            904_661_174
        },
        245 => {
            assert(is_gamma_level(245, 913_098_651)) by (nonlinear_arith);
            913_098_651
        },
        246 => {
            assert(is_gamma_level(246, 921_581_856)) by (nonlinear_arith);
            921_581_856
        },
        247 => {
            assert(is_gamma_level(247, 930_110_858)) by (nonlinear_arith);
            930_110_858
        },
        248 => {
            assert(is_gamma_level(248, 938_685_728)) by (nonlinear_arith);
            938_685_728
        },
        249 => {
            assert(is_gamma_level(249, 947_306_536)) by (nonlinear_arith);
            947_306_536
        },
        250 => {
            assert(is_gamma_level(250, 955_973_353)) by (nonlinear_arith);
            955_973_353
        },
        251 => {
            assert(is_gamma_level(251, 964_686_247)) by (nonlinear_arith);
            964_686_247
        },
        252 => {
            assert(is_gamma_level(252, 973_445_290)) by (nonlinear_arith);
            973_445_290
        },
        253 => {
            assert(is_gamma_level(253, 982_250_550)) by (nonlinear_arith);
            982_250_550
        },
        254 => {
            assert(is_gamma_level(254, 991_102_097)) by (nonlinear_arith);
            991_102_097
        },
        255 => {
            assert(is_gamma_level(255, 1_000_000_000)) by (nonlinear_arith);
            1_000_000_000
        },
        _ => 0,
    }
}

/// The linear-light value of a channel.
fn linear(c: u8) -> (v: u64)
    ensures
        v == linear_level(c as int),
        v <= LINEAR_SCALE,
    no_unwind
{
    if c <= 10 {
        (LINEAR_SCALE * (c as u64) * 5) / 16473
    } else {
        let v: u64 = gamma_level(c);
        proof {
            lemma_gamma_level_unique(c as int, v as int, linear_level(c as int));
        }
        v
    }
}


/// The cube of a number below two million.
fn cube_of(x: u64) -> (y: u128)
    requires
        x <= 2_000_000,
    ensures
        y == cube(x as int),
        y <= 8_000_000_000_000_000_000,
    no_unwind
{
    assert(x * x <= 4_000_000_000_000) by (nonlinear_arith)
        requires
            x <= 2_000_000,
    ;
    assert(x * x * x <= 8_000_000_000_000_000_000) by (nonlinear_arith)
        requires
            x * x <= 4_000_000_000_000,
            x <= 2_000_000,
    ;
    let x2: u128 = (x as u128) * (x as u128);
    x2 * (x as u128)
}

/// Ratios that the transfer curve is evaluated at: a positive denominator of moderate
/// size and a value below eight.
pub open spec fn ratio_in_range(num: int, den: int) -> bool {
    &&& 0 < den <= 200_000_000_000_000
    &&& 0 <= num < 8 * den
}

/// The integer part of `CURVE_SCALE` times the cube root of `num / den`, by bisection.
fn root_level(num: u128, den: u128) -> (f: u64)
    requires
        ratio_in_range(num as int, den as int),
    ensures
        is_root_level(num as int, den as int, f as int),
        f < 2_000_000,
    no_unwind
{
    let target: u128 = 1_000_000_000_000_000_000 * num;
    assert(cube(CURVE_SCALE as int) == 1_000_000_000_000_000_000) by (nonlinear_arith);
    assert(cube(2_000_000) == 8_000_000_000_000_000_000) by (nonlinear_arith);
    assert(cube(0) == 0);
    let mut lo: u64 = 0;
    let mut hi: u64 = 2_000_000;
    assert(cube(lo as int) * den <= target) by (nonlinear_arith)
        requires
            cube(lo as int) == 0,
            0 <= target,
    ;
    assert(target < cube(hi as int) * den) by (nonlinear_arith)
        requires
            cube(hi as int) == 8_000_000_000_000_000_000,
            target == 1_000_000_000_000_000_000 * num,
            num < 8 * den,
    ;
    while hi - lo > 1
        invariant
            lo < hi <= 2_000_000,
            ratio_in_range(num as int, den as int),
            target == cube(CURVE_SCALE as int) * num,
            cube(lo as int) * den <= target,
            target < cube(hi as int) * den,
        decreases hi - lo,
    {
        let mid: u64 = lo + (hi - lo) / 2;
        let m3: u128 = cube_of(mid);
        assert(m3 * den <= 1_600_000_000_000_000_000_000_000_000_000_000) by (nonlinear_arith)
            requires
                m3 <= 8_000_000_000_000_000_000,
                den <= 200_000_000_000_000,
        ;
        if m3 * den <= target {
            lo = mid;
        } else {
            hi = mid;
        }
    }
    lo
}

/// The transfer curve at `num / den`.
fn curve(num: u128, den: u128) -> (f: u64)
    requires
        ratio_in_range(num as int, den as int),
    ensures
        f == curve_level(num as int, den as int),
        f < 2_000_000,
    no_unwind
{
    if num * 1_000_000 > 8856 * den {
        let f: u64 = root_level(num, den);
        proof {
            lemma_root_level_unique(
                num as int,
                den as int,
                f as int,
                curve_level(num as int, den as int),
            );
        }
        f
    } else {
        let top: u128 = 1_000_000 * (225823 * num + 4000 * den);
        let bottom: u128 = 29000 * den;
        assert(top / bottom < 2_000_000) by (nonlinear_arith)
            requires
                top == 1_000_000 * (225823 * num + 4000 * den),
                bottom == 29000 * den,
                num * 1_000_000 <= 8856 * den,
                den > 0,
                num >= 0,
        ;
        (top / bottom) as u64
    }
}

/// `n / CURVE_SCALE`, rounded toward zero.
fn scale_down(n: i64) -> (q: i32)
    requires
        -2_000_000_000 <= n <= 2_000_000_000,
    ensures
        q == toward_zero(n as int, CURVE_SCALE as int),
        -2000 <= q <= 2000,
    no_unwind
{
    if n >= 0 {
        ((n as u64) / CURVE_SCALE) as i32
    } else {
        let m: u64 = (-n) as u64;
        -((m / CURVE_SCALE) as i32)
    }
}

proof fn lemma_toward_zero_bound(n: int, k: int)
    requires
        0 <= k,
        -k * 1_000_000 <= n <= k * 1_000_000,
    ensures
        -k <= toward_zero(n, 1_000_000) <= k,
{
}

impl Rgb {
    /// The CIE Lab coordinates of this sRGB color under the D65 white point, computed
    /// in integers and rounded toward zero.
    pub fn to_lab(&self) -> (lab: (i32, i32, i32))
        ensures
            (lab.0 as int, lab.1 as int, lab.2 as int) == lab_of(*self),
            lab_in_range(lab_of(*self)),
        no_unwind
    {
        let r: u128 = linear(self.r) as u128;
        let g: u128 = linear(self.g) as u128;
        let b: u128 = linear(self.b) as u128;
        let fx: i64 = curve(10 * (4124 * r + 3576 * g + 1805 * b), 95_047_000_000_000) as i64;
        let fy: i64 = curve(2126 * r + 7152 * g + 722 * b, 10_000_000_000_000) as i64;
        let fz: i64 = curve(10 * (193 * r + 1192 * g + 9505 * b), 108_883_000_000_000) as i64;
        proof {
            lemma_toward_zero_bound(116 * fy - 16 * CURVE_SCALE, 216);
            lemma_toward_zero_bound(500 * (fx - fy), 1000);
            lemma_toward_zero_bound(200 * (fy - fz), 400);
        }
        (
            scale_down(116 * fy - 16_000_000),
            scale_down(500 * (fx - fy)),
            scale_down(200 * (fy - fz)),
        )
    }

    /// Squared Lab distance to `other`; no square root is taken.
    pub fn dist_lab(&self, other: &Rgb) -> (d: u32)
        ensures
            d == color_dist(*self, *other),
        no_unwind
    {
        let p = self.to_lab();
        let q = other.to_lab();
        proof {
            reveal(color_dist);
        }
        let dl: u32 = gap_sq(p.0, q.0);
        let da: u32 = gap_sq(p.1, q.1);
        let db: u32 = gap_sq(p.2, q.2);
        dl + da + db
    }
}

/// The square of the difference of two Lab coordinates.
fn gap_sq(x: i32, y: i32) -> (out: u32)
    requires
        -1000 <= x <= 1000,
        -1000 <= y <= 1000,
    ensures
        out == (x - y) * (x - y),
        out <= 4_000_000,
    no_unwind
{
    let d: i32 = x - y;
    assert(d * d <= 4_000_000 && d * d >= 0) by (nonlinear_arith)
        requires
            -2000 <= d <= 2000,
    ;
    (d * d) as u32
}

/// The Lab distance does not depend on the order of the two colors.
pub proof fn lemma_dist_lab_symmetric(a: Rgb, b: Rgb)
    ensures
        color_dist(a, b) == color_dist(b, a),
{
    reveal(color_dist);
    let p = lab_of(a);
    let q = lab_of(b);
    assert((p.0 - q.0) * (p.0 - q.0) == (q.0 - p.0) * (q.0 - p.0)) by (nonlinear_arith);
    assert((p.1 - q.1) * (p.1 - q.1) == (q.1 - p.1) * (q.1 - p.1)) by (nonlinear_arith);
    assert((p.2 - q.2) * (p.2 - q.2) == (q.2 - p.2) * (q.2 - p.2)) by (nonlinear_arith);
}

} // verus!
