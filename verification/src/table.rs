//! Sine and cosine from a table, for angles measured in hundredths of a
//! degree.
//!
//! The table has one entry per degree and the values between the entries lie
//! on straight lines, so they fall short of the true ones by up to four
//! hundred-thousandths of `ONE`. The module for angles takes sine and cosine
//! from here as a pair and sets the length of the pair right, which leaves
//! a few millionths.

use crate::fixed::ONE;
use vstd::prelude::*;

verus! {

/// One full turn, in hundredths of a degree.
pub const FULL_TURN: i64 = 36_000;

/// A quarter of a turn, in hundredths of a degree.
pub const QUARTER_TURN: i64 = 9_000;

/// The sine of each whole number of degrees from 0 to 90.
pub const SINE_TABLE: [i64; 91] = [
    0, 17_452, 34_899, 52_336, 69_756, 87_156,
    104_528, 121_869, 139_173, 156_434, 173_648, 190_809,
    207_912, 224_951, 241_922, 258_819, 275_637, 292_372,
    309_017, 325_568, 342_020, 358_368, 374_607, 390_731,
    406_737, 422_618, 438_371, 453_990, 469_472, 484_810,
    500_000, 515_038, 529_919, 544_639, 559_193, 573_576,
    587_785, 601_815, 615_661, 629_320, 642_788, 656_059,
    669_131, 681_998, 694_658, 707_107, 719_340, 731_354,
    743_145, 754_710, 766_044, 777_146, 788_011, 798_636,
    809_017, 819_152, 829_038, 838_671, 848_048, 857_167,
    866_025, 874_620, 882_948, 891_007, 898_794, 906_308,
    913_545, 920_505, 927_184, 933_580, 939_693, 945_519,
    951_057, 956_305, 961_262, 965_926, 970_296, 974_370,
    978_148, 981_627, 984_808, 987_688, 990_268, 992_546,
    994_522, 996_195, 997_564, 998_630, 999_391, 999_848,
    1_000_000,
];

/// The sine of an angle `q` of the first quarter, `0 <= q <= QUARTER_TURN`.
pub open spec fn quarter_sine(q: int) -> int {
    let degree = q / 100;
    let part = q % 100;
    if degree >= 90 {
        ONE as int
    } else {
        SINE_TABLE[degree] + (SINE_TABLE[degree + 1] - SINE_TABLE[degree]) * part / 100
    }
}

/// The sine of an angle `a` of the first turn, `0 <= a < FULL_TURN`.
pub open spec fn turn_sine(a: int) -> int {
    if a <= 9_000 {
        quarter_sine(a)
    } else if a <= 18_000 {
        quarter_sine(18_000 - a)
    } else if a <= 27_000 {
        -quarter_sine(a - 18_000)
    } else {
        -quarter_sine(36_000 - a)
    }
}

/// The sine of `a` hundredths of a degree, as the table gives it.
pub open spec fn table_sine(a: int) -> int {
    turn_sine(a % 36_000)
}

/// The cosine of `a` hundredths of a degree, as the table gives it.
pub open spec fn table_cosine(a: int) -> int {
    table_sine(a + 9_000)
}

/// The table rises from zero to `ONE`.
pub proof fn lemma_table_rises(degree: int)
    requires
        0 <= degree < 90,
    ensures
        0 <= SINE_TABLE[degree] < SINE_TABLE[degree + 1] <= ONE,
{
}

/// A later entry of the table is no smaller than an earlier one.
pub proof fn lemma_table_monotone(low: int, high: int)
    requires
        0 <= low <= high <= 90,
    ensures
        0 <= SINE_TABLE[low] <= SINE_TABLE[high] <= ONE,
    decreases high - low,
{
    if low < high {
        lemma_table_rises(high - 1);
        lemma_table_monotone(low, high - 1);
    } else if low < 90 {
        lemma_table_rises(low);
    }
}

/// Between two entries of the table the sine stays between them.
pub proof fn lemma_quarter_sine_between(q: int)
    requires
        0 <= q < 9_000,
    ensures
        SINE_TABLE[q / 100] <= quarter_sine(q) <= SINE_TABLE[q / 100 + 1],
        q % 100 == 0 ==> quarter_sine(q) == SINE_TABLE[q / 100],
{
    let degree = q / 100;
    let part = q % 100;
    lemma_table_rises(degree);
    let rise = SINE_TABLE[degree + 1] - SINE_TABLE[degree];
    assert(0 <= rise * part / 100 <= rise) by (nonlinear_arith)
        requires
            0 <= rise,
            0 <= part < 100,
    ;
    assert(part == 0 ==> rise * part / 100 == 0) by (nonlinear_arith);
}

/// In the first quarter the sine grows with the angle, from zero to `ONE`.
pub proof fn lemma_quarter_sine_monotone(p: int, q: int)
    requires
        0 <= p <= q <= 9_000,
    ensures
        0 <= quarter_sine(p) <= quarter_sine(q) <= ONE,
{
    if q < 9_000 {
        lemma_quarter_sine_between(p);
        lemma_quarter_sine_between(q);
        lemma_table_monotone(0, p / 100);
        lemma_table_monotone(q / 100 + 1, 90);
        if p / 100 < q / 100 {
            lemma_table_monotone(p / 100 + 1, q / 100);
        } else {
            let degree = p / 100;
            let rise = SINE_TABLE[degree + 1] - SINE_TABLE[degree];
            lemma_table_rises(degree);
            assert(rise * (p % 100) / 100 <= rise * (q % 100) / 100) by (nonlinear_arith)
                requires
                    0 <= rise,
                    0 <= p % 100 <= q % 100,
            ;
        }
    } else if p < 9_000 {
        lemma_quarter_sine_between(p);
        lemma_table_monotone(0, p / 100);
        lemma_table_monotone(p / 100 + 1, 90);
    }
}

/// The angle of the first quarter whose sine is, up to its sign, the sine of
/// the angle `a` of the first turn.
pub open spec fn quarter_of(a: int) -> int {
    if a <= 9_000 {
        a
    } else if a <= 18_000 {
        18_000 - a
    } else if a <= 27_000 {
        a - 18_000
    } else {
        36_000 - a
    }
}

/// Sine and cosine of any angle are, up to their signs, the sines of two
/// angles of the first quarter that add up to a quarter turn.
pub proof fn lemma_table_quarters(a: int)
    ensures
        ({
            let q = quarter_of(a % 36_000);
            &&& 0 <= q <= 9_000
            &&& (table_sine(a) == quarter_sine(q) || table_sine(a) == -quarter_sine(q))
            &&& (table_cosine(a) == quarter_sine(9_000 - q) || table_cosine(a) == -quarter_sine(9_000 - q))
        }),
{
    let m = a % 36_000;
    lemma_quarter_ahead(a);
    let n = (a + 9_000) % 36_000;
    assert(n == if m < 27_000 {
        m + 9_000
    } else {
        m - 27_000
    });
    assert(quarter_of(n) == 9_000 - quarter_of(m));
}

/// Sine and cosine lie between `-ONE` and `ONE`.
pub proof fn lemma_table_range(a: int)
    ensures
        -ONE <= table_sine(a) <= ONE,
        -ONE <= table_cosine(a) <= ONE,
{
    lemma_table_quarters(a);
    let q = quarter_of(a % 36_000);
    lemma_quarter_sine_monotone(q, q);
    lemma_quarter_sine_monotone(9_000 - q, 9_000 - q);
}

/// Angles that differ by whole turns have the same sine and the same cosine.
pub proof fn lemma_table_periodic(a: int, turns: int)
    ensures
        table_sine(a + turns * FULL_TURN) == table_sine(a),
        table_cosine(a + turns * FULL_TURN) == table_cosine(a),
{
    assert((a + turns * 36_000) % 36_000 == a % 36_000) by (nonlinear_arith);
    assert((a + turns * 36_000 + 9_000) % 36_000 == (a + 9_000) % 36_000) by (nonlinear_arith);
}

/// Turning the other way changes the sign of the sine and leaves the cosine.
pub proof fn lemma_table_odd(a: int)
    ensures
        table_sine(-a) == -table_sine(a),
        table_cosine(-a) == table_cosine(a),
{
    let m = a % 36_000;
    assert((-a) % 36_000 == if m == 0 {
        0
    } else {
        36_000 - m
    });
    let n = (a + 9_000) % 36_000;
    assert((-a + 9_000) % 36_000 == if n <= 18_000 {
        18_000 - n
    } else {
        54_000 - n
    });
    lemma_quarter_sine_between(0);
    assert(quarter_sine(0) == 0);
}

/// By how much the squares of `sine` and `cosine` fall short of, or exceed,
/// the square of `ONE`.
pub open spec fn circle_gap(sine: int, cosine: int) -> int {
    sine * sine + cosine * cosine - ONE * ONE
}

/// The square of the distance between two points of the plane.
pub open spec fn chord_squared(s0: int, c0: int, s1: int, c1: int) -> int {
    (s1 - s0) * (s1 - s0) + (c1 - c0) * (c1 - c0)
}

/// The table lies on the circle: the entries of two angles that add up to
/// a quarter turn are sine and cosine of one angle, and their squares add up
/// to the square of `ONE` but for what rounding the entries costs; and from
/// one degree to the next the point moves by a sixtieth of `ONE`, or so.
pub proof fn lemma_table_circle(degree: int)
    requires
        0 <= degree <= 90,
    ensures
        -820_000 <= circle_gap(SINE_TABLE[degree] as int, SINE_TABLE[90 - degree] as int)
            <= 1_130_000,
        degree < 90 ==> chord_squared(
            SINE_TABLE[degree] as int,
            SINE_TABLE[90 - degree] as int,
            SINE_TABLE[degree + 1] as int,
            SINE_TABLE[89 - degree] as int,
        ) <= 304_700_000,
{
    if degree == 0 {
        assert(SINE_TABLE[0] == 0 && SINE_TABLE[90] == 1_000_000);
        assert(circle_gap(0, 1_000_000) == 0);
        assert(SINE_TABLE[1] == 17_452 && SINE_TABLE[89] == 999_848);
        assert(chord_squared(0, 1_000_000, 17_452, 999_848) == 304_595_408);
    } else if degree == 1 {
        assert(SINE_TABLE[1] == 17_452 && SINE_TABLE[89] == 999_848);
        assert(circle_gap(17_452, 999_848) == 595_408);
        assert(SINE_TABLE[2] == 34_899 && SINE_TABLE[88] == 999_391);
        assert(chord_squared(17_452, 999_848, 34_899, 999_391) == 304_606_658);
    } else if degree == 2 {
        assert(SINE_TABLE[2] == 34_899 && SINE_TABLE[88] == 999_391);
        assert(circle_gap(34_899, 999_391) == 311_082);
        assert(SINE_TABLE[3] == 52_336 && SINE_TABLE[87] == 998_630);
        assert(chord_squared(34_899, 999_391, 52_336, 998_630) == 304_628_090);
    } else if degree == 3 {
        assert(SINE_TABLE[3] == 52_336 && SINE_TABLE[87] == 998_630);
        assert(circle_gap(52_336, 998_630) == 933_796);
        assert(SINE_TABLE[4] == 69_756 && SINE_TABLE[86] == 997_564);
        assert(chord_squared(52_336, 998_630, 69_756, 997_564) == 304_592_756);
    } else if degree == 4 {
        assert(SINE_TABLE[4] == 69_756 && SINE_TABLE[86] == 997_564);
        assert(circle_gap(69_756, 997_564) == -166_368);
        assert(SINE_TABLE[5] == 87_156 && SINE_TABLE[85] == 996_195);
        assert(chord_squared(69_756, 997_564, 87_156, 996_195) == 304_634_161);
    } else if degree == 5 {
        assert(SINE_TABLE[5] == 87_156 && SINE_TABLE[85] == 996_195);
        assert(circle_gap(87_156, 996_195) == 646_361);
        assert(SINE_TABLE[6] == 104_528 && SINE_TABLE[84] == 994_522);
        assert(chord_squared(87_156, 996_195, 104_528, 994_522) == 304_585_313);
    } else if degree == 6 {
        assert(SINE_TABLE[6] == 104_528 && SINE_TABLE[84] == 994_522);
        assert(circle_gap(104_528, 994_522) == 111_268);
        assert(SINE_TABLE[7] == 121_869 && SINE_TABLE[83] == 992_546);
        assert(chord_squared(104_528, 994_522, 121_869, 992_546) == 304_614_857);
    } else if degree == 7 {
        assert(SINE_TABLE[7] == 121_869 && SINE_TABLE[83] == 992_546);
        assert(circle_gap(121_869, 992_546) == -384_723);
        assert(SINE_TABLE[8] == 139_173 && SINE_TABLE[82] == 990_268);
        assert(chord_squared(121_869, 992_546, 139_173, 990_268) == 304_617_700);
    } else if degree == 8 {
        assert(SINE_TABLE[8] == 139_173 && SINE_TABLE[82] == 990_268);
        assert(circle_gap(139_173, 990_268) == -164_247);
        assert(SINE_TABLE[9] == 156_434 && SINE_TABLE[81] == 987_688);
        assert(chord_squared(139_173, 990_268, 156_434, 987_688) == 304_598_521);
    } else if degree == 9 {
        assert(SINE_TABLE[9] == 156_434 && SINE_TABLE[81] == 987_688);
        assert(circle_gap(156_434, 987_688) == -818_300);
        assert(SINE_TABLE[10] == 173_648 && SINE_TABLE[80] == 984_808);
        assert(chord_squared(156_434, 987_688, 173_648, 984_808) == 304_616_196);
    } else if degree == 10 {
        assert(SINE_TABLE[10] == 173_648 && SINE_TABLE[80] == 984_808);
        assert(circle_gap(173_648, 984_808) == 424_768);
        assert(SINE_TABLE[11] == 190_809 && SINE_TABLE[79] == 981_627);
        assert(chord_squared(173_648, 984_808, 190_809, 981_627) == 304_618_682);
    } else if degree == 11 {
        assert(SINE_TABLE[11] == 190_809 && SINE_TABLE[79] == 981_627);
        assert(circle_gap(190_809, 981_627) == -358_390);
        assert(SINE_TABLE[12] == 207_912 && SINE_TABLE[78] == 978_148);
        assert(chord_squared(190_809, 981_627, 207_912, 978_148) == 304_616_050);
    } else if degree == 12 {
        assert(SINE_TABLE[12] == 207_912 && SINE_TABLE[78] == 978_148);
        assert(circle_gap(207_912, 978_148) == 909_648);
        assert(SINE_TABLE[13] == 224_951 && SINE_TABLE[77] == 974_370);
        assert(chord_squared(207_912, 978_148, 224_951, 974_370) == 304_600_805);
    } else if degree == 13 {
        assert(SINE_TABLE[13] == 224_951 && SINE_TABLE[77] == 974_370);
        assert(circle_gap(224_951, 974_370) == -150_699);
        assert(SINE_TABLE[14] == 241_922 && SINE_TABLE[76] == 970_296);
        assert(chord_squared(224_951, 974_370, 241_922, 970_296) == 304_612_317);
    } else if degree == 14 {
        assert(SINE_TABLE[14] == 241_922 && SINE_TABLE[76] == 970_296);
        assert(circle_gap(241_922, 970_296) == 581_700);
        assert(SINE_TABLE[15] == 258_819 && SINE_TABLE[75] == 965_926);
        assert(chord_squared(241_922, 970_296, 258_819, 965_926) == 304_605_509);
    } else if degree == 15 {
        assert(SINE_TABLE[15] == 258_819 && SINE_TABLE[75] == 965_926);
        assert(circle_gap(258_819, 965_926) == 312_237);
        assert(SINE_TABLE[16] == 275_637 && SINE_TABLE[74] == 961_262);
        assert(chord_squared(258_819, 965_926, 275_637, 961_262) == 304_598_020);
    } else if degree == 16 {
        assert(SINE_TABLE[16] == 275_637 && SINE_TABLE[74] == 961_262);
        assert(circle_gap(275_637, 961_262) == 388_413);
        assert(SINE_TABLE[17] == 292_372 && SINE_TABLE[73] == 956_305);
        assert(chord_squared(275_637, 961_262, 292_372, 956_305) == 304_632_074);
    } else if degree == 17 {
        assert(SINE_TABLE[17] == 292_372 && SINE_TABLE[73] == 956_305);
        assert(circle_gap(292_372, 956_305) == 639_409);
        assert(SINE_TABLE[18] == 309_017 && SINE_TABLE[72] == 951_057);
        assert(chord_squared(292_372, 956_305, 309_017, 951_057) == 304_597_529);
    } else if degree == 18 {
        assert(SINE_TABLE[18] == 309_017 && SINE_TABLE[72] == 951_057);
        assert(circle_gap(309_017, 951_057) == 923_538);
        assert(SINE_TABLE[19] == 325_568 && SINE_TABLE[71] == 945_519);
        assert(chord_squared(309_017, 951_057, 325_568, 945_519) == 304_605_045);
    } else if degree == 19 {
        assert(SINE_TABLE[19] == 325_568 && SINE_TABLE[71] == 945_519);
        assert(circle_gap(325_568, 945_519) == 701_985);
        assert(SINE_TABLE[20] == 342_020 && SINE_TABLE[70] == 939_693);
        assert(chord_squared(325_568, 945_519, 342_020, 939_693) == 304_610_580);
    } else if degree == 20 {
        assert(SINE_TABLE[20] == 342_020 && SINE_TABLE[70] == 939_693);
        assert(circle_gap(342_020, 939_693) == 614_649);
        assert(SINE_TABLE[21] == 358_368 && SINE_TABLE[69] == 933_580);
        assert(chord_squared(342_020, 939_693, 358_368, 933_580) == 304_625_873);
    } else if degree == 21 {
        assert(SINE_TABLE[21] == 358_368 && SINE_TABLE[69] == 933_580);
        assert(circle_gap(358_368, 933_580) == -760_176);
        assert(SINE_TABLE[22] == 374_607 && SINE_TABLE[68] == 927_184);
        assert(chord_squared(358_368, 933_580, 374_607, 927_184) == 304_613_937);
    } else if degree == 22 {
        assert(SINE_TABLE[22] == 374_607 && SINE_TABLE[68] == 927_184);
        assert(circle_gap(374_607, 927_184) == 574_305);
        assert(SINE_TABLE[23] == 390_731 && SINE_TABLE[67] == 920_505);
        assert(chord_squared(374_607, 927_184, 390_731, 920_505) == 304_592_417);
    } else if degree == 23 {
        assert(SINE_TABLE[23] == 390_731 && SINE_TABLE[67] == 920_505);
        assert(circle_gap(390_731, 920_505) == 169_386);
        assert(SINE_TABLE[24] == 406_737 && SINE_TABLE[66] == 913_545);
        assert(chord_squared(390_731, 920_505, 406_737, 913_545) == 304_633_636);
    } else if degree == 24 {
        assert(SINE_TABLE[24] == 406_737 && SINE_TABLE[66] == 913_545);
        assert(circle_gap(406_737, 913_545) == -545_806);
        assert(SINE_TABLE[25] == 422_618 && SINE_TABLE[65] == 906_308);
        assert(chord_squared(406_737, 913_545, 422_618, 906_308) == 304_580_330);
    } else if degree == 25 {
        assert(SINE_TABLE[25] == 422_618 && SINE_TABLE[65] == 906_308);
        assert(circle_gap(422_618, 906_308) == 164_788);
        assert(SINE_TABLE[26] == 438_371 && SINE_TABLE[64] == 898_794);
        assert(chord_squared(422_618, 906_308, 438_371, 898_794) == 304_617_205);
    } else if degree == 26 {
        assert(SINE_TABLE[26] == 438_371 && SINE_TABLE[64] == 898_794);
        assert(circle_gap(438_371, 898_794) == -211_923);
        assert(SINE_TABLE[27] == 453_990 && SINE_TABLE[63] == 891_007);
        assert(chord_squared(438_371, 898_794, 453_990, 891_007) == 304_590_530);
    } else if degree == 27 {
        assert(SINE_TABLE[27] == 453_990 && SINE_TABLE[63] == 891_007);
        assert(circle_gap(453_990, 891_007) == 394_149);
        assert(SINE_TABLE[28] == 469_472 && SINE_TABLE[62] == 882_948);
        assert(chord_squared(453_990, 891_007, 469_472, 882_948) == 304_639_805);
    } else if degree == 28 {
        assert(SINE_TABLE[28] == 469_472 && SINE_TABLE[62] == 882_948);
        assert(circle_gap(469_472, 882_948) == 1_129_488);
        assert(SINE_TABLE[29] == 484_810 && SINE_TABLE[61] == 874_620);
        assert(chord_squared(469_472, 882_948, 484_810, 874_620) == 304_609_828);
    } else if degree == 29 {
        assert(SINE_TABLE[29] == 484_810 && SINE_TABLE[61] == 874_620);
        assert(circle_gap(484_810, 874_620) == 880_500);
        assert(SINE_TABLE[30] == 500_000 && SINE_TABLE[60] == 866_025);
        assert(chord_squared(484_810, 874_620, 500_000, 866_025) == 304_610_125);
    } else if degree == 30 {
        assert(SINE_TABLE[30] == 500_000 && SINE_TABLE[60] == 866_025);
        assert(circle_gap(500_000, 866_025) == -699_375);
        assert(SINE_TABLE[31] == 515_038 && SINE_TABLE[59] == 857_167);
        assert(chord_squared(500_000, 866_025, 515_038, 857_167) == 304_605_608);
    } else if degree == 31 {
        assert(SINE_TABLE[31] == 515_038 && SINE_TABLE[59] == 857_167);
        assert(circle_gap(515_038, 857_167) == -592_667);
        assert(SINE_TABLE[32] == 529_919 && SINE_TABLE[58] == 848_048);
        assert(chord_squared(515_038, 857_167, 529_919, 848_048) == 304_600_322);
    } else if degree == 32 {
        assert(SINE_TABLE[32] == 529_919 && SINE_TABLE[58] == 848_048);
        assert(circle_gap(529_919, 848_048) == -443_135);
        assert(SINE_TABLE[33] == 544_639 && SINE_TABLE[57] == 838_671);
        assert(chord_squared(529_919, 848_048, 544_639, 838_671) == 304_606_529);
    } else if degree == 33 {
        assert(SINE_TABLE[33] == 544_639 && SINE_TABLE[57] == 838_671);
        assert(circle_gap(544_639, 838_671) == 686_562);
        assert(SINE_TABLE[34] == 559_193 && SINE_TABLE[56] == 829_038);
        assert(chord_squared(544_639, 838_671, 559_193, 829_038) == 304_613_605);
    } else if degree == 34 {
        assert(SINE_TABLE[34] == 559_193 && SINE_TABLE[56] == 829_038);
        assert(circle_gap(559_193, 829_038) == 816_693);
        assert(SINE_TABLE[35] == 573_576 && SINE_TABLE[55] == 819_152);
        assert(chord_squared(559_193, 829_038, 573_576, 819_152) == 304_603_685);
    } else if degree == 35 {
        assert(SINE_TABLE[35] == 573_576 && SINE_TABLE[55] == 819_152);
        assert(circle_gap(573_576, 819_152) == -573_120);
        assert(SINE_TABLE[36] == 587_785 && SINE_TABLE[54] == 809_017);
        assert(chord_squared(573_576, 819_152, 587_785, 809_017) == 304_613_906);
    } else if degree == 36 {
        assert(SINE_TABLE[36] == 587_785 && SINE_TABLE[54] == 809_017);
        assert(circle_gap(587_785, 809_017) == -287_486);
        assert(SINE_TABLE[37] == 601_815 && SINE_TABLE[53] == 798_636);
        assert(chord_squared(587_785, 809_017, 601_815, 798_636) == 304_606_061);
    } else if degree == 37 {
        assert(SINE_TABLE[37] == 601_815 && SINE_TABLE[53] == 798_636);
        assert(circle_gap(601_815, 798_636) == 754_721);
        assert(SINE_TABLE[38] == 615_661 && SINE_TABLE[52] == 788_011);
        assert(chord_squared(601_815, 798_636, 615_661, 788_011) == 304_602_341);
    } else if degree == 38 {
        assert(SINE_TABLE[38] == 615_661 && SINE_TABLE[52] == 788_011);
        assert(circle_gap(615_661, 788_011) == -196_958);
        assert(SINE_TABLE[39] == 629_320 && SINE_TABLE[51] == 777_146);
        assert(chord_squared(615_661, 788_011, 629_320, 777_146) == 304_616_506);
    } else if degree == 39 {
        assert(SINE_TABLE[39] == 629_320 && SINE_TABLE[51] == 777_146);
        assert(circle_gap(629_320, 777_146) == -432_284);
        assert(SINE_TABLE[40] == 642_788 && SINE_TABLE[50] == 766_044);
        assert(chord_squared(629_320, 777_146, 642_788, 766_044) == 304_641_428);
    } else if degree == 40 {
        assert(SINE_TABLE[40] == 642_788 && SINE_TABLE[50] == 766_044);
        assert(circle_gap(642_788, 766_044) == -177_120);
        assert(SINE_TABLE[41] == 656_059 && SINE_TABLE[49] == 754_710);
        assert(chord_squared(642_788, 766_044, 656_059, 754_710) == 304_578_997);
    } else if degree == 41 {
        assert(SINE_TABLE[41] == 656_059 && SINE_TABLE[49] == 754_710);
        assert(circle_gap(656_059, 754_710) == 595_581);
        assert(SINE_TABLE[42] == 669_131 && SINE_TABLE[48] == 743_145);
        assert(chord_squared(656_059, 754_710, 669_131, 743_145) == 304_626_409);
    } else if degree == 42 {
        assert(SINE_TABLE[42] == 669_131 && SINE_TABLE[48] == 743_145);
        assert(circle_gap(669_131, 743_145) == 786_186);
        assert(SINE_TABLE[43] == 681_998 && SINE_TABLE[47] == 731_354);
        assert(chord_squared(669_131, 743_145, 681_998, 731_354) == 304_587_370);
    } else if degree == 43 {
        assert(SINE_TABLE[43] == 681_998 && SINE_TABLE[47] == 731_354);
        assert(circle_gap(681_998, 731_354) == -54_680);
        assert(SINE_TABLE[44] == 694_658 && SINE_TABLE[46] == 719_340);
        assert(chord_squared(681_998, 731_354, 694_658, 719_340) == 304_611_796);
    } else if degree == 44 {
        assert(SINE_TABLE[44] == 694_658 && SINE_TABLE[46] == 719_340);
        assert(circle_gap(694_658, 719_340) == -227_436);
        assert(SINE_TABLE[45] == 707_107 && SINE_TABLE[45] == 707_107);
        assert(chord_squared(694_658, 719_340, 707_107, 707_107) == 304_623_890);
    } else if degree == 45 {
        assert(SINE_TABLE[45] == 707_107 && SINE_TABLE[45] == 707_107);
        assert(circle_gap(707_107, 707_107) == 618_898);
        assert(SINE_TABLE[46] == 719_340 && SINE_TABLE[44] == 694_658);
        assert(chord_squared(707_107, 707_107, 719_340, 694_658) == 304_623_890);
    } else if degree == 46 {
        assert(SINE_TABLE[46] == 719_340 && SINE_TABLE[44] == 694_658);
        assert(circle_gap(719_340, 694_658) == -227_436);
        assert(SINE_TABLE[47] == 731_354 && SINE_TABLE[43] == 681_998);
        assert(chord_squared(719_340, 694_658, 731_354, 681_998) == 304_611_796);
    } else if degree == 47 {
        assert(SINE_TABLE[47] == 731_354 && SINE_TABLE[43] == 681_998);
        assert(circle_gap(731_354, 681_998) == -54_680);
        assert(SINE_TABLE[48] == 743_145 && SINE_TABLE[42] == 669_131);
        assert(chord_squared(731_354, 681_998, 743_145, 669_131) == 304_587_370);
    } else if degree == 48 {
        assert(SINE_TABLE[48] == 743_145 && SINE_TABLE[42] == 669_131);
        assert(circle_gap(743_145, 669_131) == 786_186);
        assert(SINE_TABLE[49] == 754_710 && SINE_TABLE[41] == 656_059);
        assert(chord_squared(743_145, 669_131, 754_710, 656_059) == 304_626_409);
    } else if degree == 49 {
        assert(SINE_TABLE[49] == 754_710 && SINE_TABLE[41] == 656_059);
        assert(circle_gap(754_710, 656_059) == 595_581);
        assert(SINE_TABLE[50] == 766_044 && SINE_TABLE[40] == 642_788);
        assert(chord_squared(754_710, 656_059, 766_044, 642_788) == 304_578_997);
    } else if degree == 50 {
        assert(SINE_TABLE[50] == 766_044 && SINE_TABLE[40] == 642_788);
        assert(circle_gap(766_044, 642_788) == -177_120);
        assert(SINE_TABLE[51] == 777_146 && SINE_TABLE[39] == 629_320);
        assert(chord_squared(766_044, 642_788, 777_146, 629_320) == 304_641_428);
    } else if degree == 51 {
        assert(SINE_TABLE[51] == 777_146 && SINE_TABLE[39] == 629_320);
        assert(circle_gap(777_146, 629_320) == -432_284);
        assert(SINE_TABLE[52] == 788_011 && SINE_TABLE[38] == 615_661);
        assert(chord_squared(777_146, 629_320, 788_011, 615_661) == 304_616_506);
    } else if degree == 52 {
        assert(SINE_TABLE[52] == 788_011 && SINE_TABLE[38] == 615_661);
        assert(circle_gap(788_011, 615_661) == -196_958);
        assert(SINE_TABLE[53] == 798_636 && SINE_TABLE[37] == 601_815);
        assert(chord_squared(788_011, 615_661, 798_636, 601_815) == 304_602_341);
    } else if degree == 53 {
        assert(SINE_TABLE[53] == 798_636 && SINE_TABLE[37] == 601_815);
        assert(circle_gap(798_636, 601_815) == 754_721);
        assert(SINE_TABLE[54] == 809_017 && SINE_TABLE[36] == 587_785);
        assert(chord_squared(798_636, 601_815, 809_017, 587_785) == 304_606_061);
    } else if degree == 54 {
        assert(SINE_TABLE[54] == 809_017 && SINE_TABLE[36] == 587_785);
        assert(circle_gap(809_017, 587_785) == -287_486);
        assert(SINE_TABLE[55] == 819_152 && SINE_TABLE[35] == 573_576);
        assert(chord_squared(809_017, 587_785, 819_152, 573_576) == 304_613_906);
    } else if degree == 55 {
        assert(SINE_TABLE[55] == 819_152 && SINE_TABLE[35] == 573_576);
        assert(circle_gap(819_152, 573_576) == -573_120);
        assert(SINE_TABLE[56] == 829_038 && SINE_TABLE[34] == 559_193);
        assert(chord_squared(819_152, 573_576, 829_038, 559_193) == 304_603_685);
    } else if degree == 56 {
        assert(SINE_TABLE[56] == 829_038 && SINE_TABLE[34] == 559_193);
        assert(circle_gap(829_038, 559_193) == 816_693);
        assert(SINE_TABLE[57] == 838_671 && SINE_TABLE[33] == 544_639);
        assert(chord_squared(829_038, 559_193, 838_671, 544_639) == 304_613_605);
    } else if degree == 57 {
        assert(SINE_TABLE[57] == 838_671 && SINE_TABLE[33] == 544_639);
        assert(circle_gap(838_671, 544_639) == 686_562);
        assert(SINE_TABLE[58] == 848_048 && SINE_TABLE[32] == 529_919);
        assert(chord_squared(838_671, 544_639, 848_048, 529_919) == 304_606_529);
    } else if degree == 58 {
        assert(SINE_TABLE[58] == 848_048 && SINE_TABLE[32] == 529_919);
        assert(circle_gap(848_048, 529_919) == -443_135);
        assert(SINE_TABLE[59] == 857_167 && SINE_TABLE[31] == 515_038);
        assert(chord_squared(848_048, 529_919, 857_167, 515_038) == 304_600_322);
    } else if degree == 59 {
        assert(SINE_TABLE[59] == 857_167 && SINE_TABLE[31] == 515_038);
        assert(circle_gap(857_167, 515_038) == -592_667);
        assert(SINE_TABLE[60] == 866_025 && SINE_TABLE[30] == 500_000);
        assert(chord_squared(857_167, 515_038, 866_025, 500_000) == 304_605_608);
    } else if degree == 60 {
        assert(SINE_TABLE[60] == 866_025 && SINE_TABLE[30] == 500_000);
        assert(circle_gap(866_025, 500_000) == -699_375);
        assert(SINE_TABLE[61] == 874_620 && SINE_TABLE[29] == 484_810);
        assert(chord_squared(866_025, 500_000, 874_620, 484_810) == 304_610_125);
    } else if degree == 61 {
        assert(SINE_TABLE[61] == 874_620 && SINE_TABLE[29] == 484_810);
        assert(circle_gap(874_620, 484_810) == 880_500);
        assert(SINE_TABLE[62] == 882_948 && SINE_TABLE[28] == 469_472);
        assert(chord_squared(874_620, 484_810, 882_948, 469_472) == 304_609_828);
    } else if degree == 62 {
        assert(SINE_TABLE[62] == 882_948 && SINE_TABLE[28] == 469_472);
        assert(circle_gap(882_948, 469_472) == 1_129_488);
        assert(SINE_TABLE[63] == 891_007 && SINE_TABLE[27] == 453_990);
        assert(chord_squared(882_948, 469_472, 891_007, 453_990) == 304_639_805);
    } else if degree == 63 {
        assert(SINE_TABLE[63] == 891_007 && SINE_TABLE[27] == 453_990);
        assert(circle_gap(891_007, 453_990) == 394_149);
        assert(SINE_TABLE[64] == 898_794 && SINE_TABLE[26] == 438_371);
        assert(chord_squared(891_007, 453_990, 898_794, 438_371) == 304_590_530);
    } else if degree == 64 {
        assert(SINE_TABLE[64] == 898_794 && SINE_TABLE[26] == 438_371);
        assert(circle_gap(898_794, 438_371) == -211_923);
        assert(SINE_TABLE[65] == 906_308 && SINE_TABLE[25] == 422_618);
        assert(chord_squared(898_794, 438_371, 906_308, 422_618) == 304_617_205);
    } else if degree == 65 {
        assert(SINE_TABLE[65] == 906_308 && SINE_TABLE[25] == 422_618);
        assert(circle_gap(906_308, 422_618) == 164_788);
        assert(SINE_TABLE[66] == 913_545 && SINE_TABLE[24] == 406_737);
        assert(chord_squared(906_308, 422_618, 913_545, 406_737) == 304_580_330);
    } else if degree == 66 {
        assert(SINE_TABLE[66] == 913_545 && SINE_TABLE[24] == 406_737);
        assert(circle_gap(913_545, 406_737) == -545_806);
        assert(SINE_TABLE[67] == 920_505 && SINE_TABLE[23] == 390_731);
        assert(chord_squared(913_545, 406_737, 920_505, 390_731) == 304_633_636);
    } else if degree == 67 {
        assert(SINE_TABLE[67] == 920_505 && SINE_TABLE[23] == 390_731);
        assert(circle_gap(920_505, 390_731) == 169_386);
        assert(SINE_TABLE[68] == 927_184 && SINE_TABLE[22] == 374_607);
        assert(chord_squared(920_505, 390_731, 927_184, 374_607) == 304_592_417);
    } else if degree == 68 {
        assert(SINE_TABLE[68] == 927_184 && SINE_TABLE[22] == 374_607);
        assert(circle_gap(927_184, 374_607) == 574_305);
        assert(SINE_TABLE[69] == 933_580 && SINE_TABLE[21] == 358_368);
        assert(chord_squared(927_184, 374_607, 933_580, 358_368) == 304_613_937);
    } else if degree == 69 {
        assert(SINE_TABLE[69] == 933_580 && SINE_TABLE[21] == 358_368);
        assert(circle_gap(933_580, 358_368) == -760_176);
        assert(SINE_TABLE[70] == 939_693 && SINE_TABLE[20] == 342_020);
        assert(chord_squared(933_580, 358_368, 939_693, 342_020) == 304_625_873);
    } else if degree == 70 {
        assert(SINE_TABLE[70] == 939_693 && SINE_TABLE[20] == 342_020);
        assert(circle_gap(939_693, 342_020) == 614_649);
        assert(SINE_TABLE[71] == 945_519 && SINE_TABLE[19] == 325_568);
        assert(chord_squared(939_693, 342_020, 945_519, 325_568) == 304_610_580);
    } else if degree == 71 {
        assert(SINE_TABLE[71] == 945_519 && SINE_TABLE[19] == 325_568);
        assert(circle_gap(945_519, 325_568) == 701_985);
        assert(SINE_TABLE[72] == 951_057 && SINE_TABLE[18] == 309_017);
        assert(chord_squared(945_519, 325_568, 951_057, 309_017) == 304_605_045);
    } else if degree == 72 {
        assert(SINE_TABLE[72] == 951_057 && SINE_TABLE[18] == 309_017);
        assert(circle_gap(951_057, 309_017) == 923_538);
        assert(SINE_TABLE[73] == 956_305 && SINE_TABLE[17] == 292_372);
        assert(chord_squared(951_057, 309_017, 956_305, 292_372) == 304_597_529);
    } else if degree == 73 {
        assert(SINE_TABLE[73] == 956_305 && SINE_TABLE[17] == 292_372);
        assert(circle_gap(956_305, 292_372) == 639_409);
        assert(SINE_TABLE[74] == 961_262 && SINE_TABLE[16] == 275_637);
        assert(chord_squared(956_305, 292_372, 961_262, 275_637) == 304_632_074);
    } else if degree == 74 {
        assert(SINE_TABLE[74] == 961_262 && SINE_TABLE[16] == 275_637);
        assert(circle_gap(961_262, 275_637) == 388_413);
        assert(SINE_TABLE[75] == 965_926 && SINE_TABLE[15] == 258_819);
        assert(chord_squared(961_262, 275_637, 965_926, 258_819) == 304_598_020);
    } else if degree == 75 {
        assert(SINE_TABLE[75] == 965_926 && SINE_TABLE[15] == 258_819);
        assert(circle_gap(965_926, 258_819) == 312_237);
        assert(SINE_TABLE[76] == 970_296 && SINE_TABLE[14] == 241_922);
        assert(chord_squared(965_926, 258_819, 970_296, 241_922) == 304_605_509);
    } else if degree == 76 {
        assert(SINE_TABLE[76] == 970_296 && SINE_TABLE[14] == 241_922);
        assert(circle_gap(970_296, 241_922) == 581_700);
        assert(SINE_TABLE[77] == 974_370 && SINE_TABLE[13] == 224_951);
        assert(chord_squared(970_296, 241_922, 974_370, 224_951) == 304_612_317);
    } else if degree == 77 {
        assert(SINE_TABLE[77] == 974_370 && SINE_TABLE[13] == 224_951);
        assert(circle_gap(974_370, 224_951) == -150_699);
        assert(SINE_TABLE[78] == 978_148 && SINE_TABLE[12] == 207_912);
        assert(chord_squared(974_370, 224_951, 978_148, 207_912) == 304_600_805);
    } else if degree == 78 {
        assert(SINE_TABLE[78] == 978_148 && SINE_TABLE[12] == 207_912);
        assert(circle_gap(978_148, 207_912) == 909_648);
        assert(SINE_TABLE[79] == 981_627 && SINE_TABLE[11] == 190_809);
        assert(chord_squared(978_148, 207_912, 981_627, 190_809) == 304_616_050);
    } else if degree == 79 {
        assert(SINE_TABLE[79] == 981_627 && SINE_TABLE[11] == 190_809);
        assert(circle_gap(981_627, 190_809) == -358_390);
        assert(SINE_TABLE[80] == 984_808 && SINE_TABLE[10] == 173_648);
        assert(chord_squared(981_627, 190_809, 984_808, 173_648) == 304_618_682);
    } else if degree == 80 {
        assert(SINE_TABLE[80] == 984_808 && SINE_TABLE[10] == 173_648);
        assert(circle_gap(984_808, 173_648) == 424_768);
        assert(SINE_TABLE[81] == 987_688 && SINE_TABLE[9] == 156_434);
        assert(chord_squared(984_808, 173_648, 987_688, 156_434) == 304_616_196);
    } else if degree == 81 {
        assert(SINE_TABLE[81] == 987_688 && SINE_TABLE[9] == 156_434);
        assert(circle_gap(987_688, 156_434) == -818_300);
        assert(SINE_TABLE[82] == 990_268 && SINE_TABLE[8] == 139_173);
        assert(chord_squared(987_688, 156_434, 990_268, 139_173) == 304_598_521);
    } else if degree == 82 {
        assert(SINE_TABLE[82] == 990_268 && SINE_TABLE[8] == 139_173);
        assert(circle_gap(990_268, 139_173) == -164_247);
        assert(SINE_TABLE[83] == 992_546 && SINE_TABLE[7] == 121_869);
        assert(chord_squared(990_268, 139_173, 992_546, 121_869) == 304_617_700);
    } else if degree == 83 {
        assert(SINE_TABLE[83] == 992_546 && SINE_TABLE[7] == 121_869);
        assert(circle_gap(992_546, 121_869) == -384_723);
        assert(SINE_TABLE[84] == 994_522 && SINE_TABLE[6] == 104_528);
        assert(chord_squared(992_546, 121_869, 994_522, 104_528) == 304_614_857);
    } else if degree == 84 {
        assert(SINE_TABLE[84] == 994_522 && SINE_TABLE[6] == 104_528);
        assert(circle_gap(994_522, 104_528) == 111_268);
        assert(SINE_TABLE[85] == 996_195 && SINE_TABLE[5] == 87_156);
        assert(chord_squared(994_522, 104_528, 996_195, 87_156) == 304_585_313);
    } else if degree == 85 {
        assert(SINE_TABLE[85] == 996_195 && SINE_TABLE[5] == 87_156);
        assert(circle_gap(996_195, 87_156) == 646_361);
        assert(SINE_TABLE[86] == 997_564 && SINE_TABLE[4] == 69_756);
        assert(chord_squared(996_195, 87_156, 997_564, 69_756) == 304_634_161);
    } else if degree == 86 {
        assert(SINE_TABLE[86] == 997_564 && SINE_TABLE[4] == 69_756);
        assert(circle_gap(997_564, 69_756) == -166_368);
        assert(SINE_TABLE[87] == 998_630 && SINE_TABLE[3] == 52_336);
        assert(chord_squared(997_564, 69_756, 998_630, 52_336) == 304_592_756);
    } else if degree == 87 {
        assert(SINE_TABLE[87] == 998_630 && SINE_TABLE[3] == 52_336);
        assert(circle_gap(998_630, 52_336) == 933_796);
        assert(SINE_TABLE[88] == 999_391 && SINE_TABLE[2] == 34_899);
        assert(chord_squared(998_630, 52_336, 999_391, 34_899) == 304_628_090);
    } else if degree == 88 {
        assert(SINE_TABLE[88] == 999_391 && SINE_TABLE[2] == 34_899);
        assert(circle_gap(999_391, 34_899) == 311_082);
        assert(SINE_TABLE[89] == 999_848 && SINE_TABLE[1] == 17_452);
        assert(chord_squared(999_391, 34_899, 999_848, 17_452) == 304_606_658);
    } else if degree == 89 {
        assert(SINE_TABLE[89] == 999_848 && SINE_TABLE[1] == 17_452);
        assert(circle_gap(999_848, 17_452) == 595_408);
        assert(SINE_TABLE[90] == 1_000_000 && SINE_TABLE[0] == 0);
        assert(chord_squared(999_848, 17_452, 1_000_000, 0) == 304_595_408);
    } else if degree == 90 {
        assert(SINE_TABLE[90] == 1_000_000 && SINE_TABLE[0] == 0);
        assert(circle_gap(1_000_000, 0) == 0);
    }
}

proof fn lemma_square_of_blend(u: int, f: int, a: int, b: int)
    ensures
        (u * a + f * b) * (u * a + f * b) == (u * u) * (a * a) + 2 * ((u * f) * (a * b)) + (f
            * f) * (b * b),
{
    let p = u * a;
    let q = f * b;
    assert((p + q) * (p + q) == p * p + 2 * (p * q) + q * q) by (nonlinear_arith);
    assert((u * a) * (u * a) == (u * u) * (a * a)) by (nonlinear_arith);
    assert((f * b) * (f * b) == (f * f) * (b * b)) by (nonlinear_arith);
    assert((u * a) * (f * b) == (u * f) * (a * b)) by (nonlinear_arith);
}

proof fn lemma_twice_the_dot(s0: int, c0: int, s1: int, c1: int)
    by (nonlinear_arith)
    ensures
        2 * (s0 * s1 + c0 * c1) == (s0 * s0 + c0 * c0) + (s1 * s1 + c1 * c1) - chord_squared(
            s0,
            c0,
            s1,
            c1,
        ),
{
}

proof fn lemma_blend_bounds(u: int, f: int, a: int, b: int, chord: int)
    by (nonlinear_arith)
    requires
        0 <= u,
        0 <= f,
        u + f == 100,
        999_999_180_000 <= a <= 1_000_001_130_000,
        999_999_180_000 <= b <= 1_000_001_130_000,
        0 <= chord <= 304_700_000,
    ensures
        10_000 * 999_999_180_000 - 2_500 * 304_700_000 <= (u * u) * a + (u * f) * (a + b - chord)
            + (f * f) * b <= 10_000 * 1_000_001_130_000,
{
    assert(0 <= u * f <= 2_500);
    assert(u * u + 2 * (u * f) + f * f == 10_000);
}

proof fn lemma_hundredth(total: int)
    by (nonlinear_arith)
    requires
        0 <= total,
    ensures
        total * total - 200 * total <= (total / 100) * (total / 100) * 10_000 <= total * total,
{
}

/// A point on the straight line between two neighbours of the table lies
/// inside the circle, and no deeper than the middle of the line does.
proof fn lemma_on_chord(s0: int, c0: int, s1: int, c1: int, f: int)
    requires
        0 <= s0 <= s1 <= ONE,
        0 <= c1 <= c0 <= ONE,
        0 <= f <= 100,
        -820_000 <= circle_gap(s0, c0) <= 1_130_000,
        -820_000 <= circle_gap(s1, c1) <= 1_130_000,
        chord_squared(s0, c0, s1, c1) <= 304_700_000,
    ensures
        -81_000_000 <= circle_gap(
            (100 * s0 + (s1 - s0) * f) / 100,
            (100 * c1 + (c0 - c1) * (100 - f)) / 100,
        ) <= 1_130_000,
{
    let u = 100 - f;
    let y = u * s0 + f * s1;
    let x = u * c0 + f * c1;
    assert(y == 100 * s0 + (s1 - s0) * f && x == 100 * c1 + (c0 - c1) * (100 - f))
        by (nonlinear_arith)
        requires
            u == 100 - f,
            y == u * s0 + f * s1,
            x == u * c0 + f * c1,
    ;
    assert(0 <= y <= 100_000_000 && 0 <= x <= 100_000_000) by (nonlinear_arith)
        requires
            y == u * s0 + f * s1,
            x == u * c0 + f * c1,
            0 <= u,
            0 <= f,
            u + f == 100,
            0 <= s0 <= 1_000_000,
            0 <= s1 <= 1_000_000,
            0 <= c0 <= 1_000_000,
            0 <= c1 <= 1_000_000,
    ;
    let a = s0 * s0 + c0 * c0;
    let b = s1 * s1 + c1 * c1;
    let chord = chord_squared(s0, c0, s1, c1);
    assert(chord >= 0) by (nonlinear_arith)
        requires
            chord == (s1 - s0) * (s1 - s0) + (c1 - c0) * (c1 - c0),
    ;
    lemma_square_of_blend(u, f, s0, s1);
    lemma_square_of_blend(u, f, c0, c1);
    lemma_twice_the_dot(s0, c0, s1, c1);
    let dot = s0 * s1 + c0 * c1;
    assert((u * u) * a == (u * u) * (s0 * s0) + (u * u) * (c0 * c0)) by (nonlinear_arith)
        requires
            a == s0 * s0 + c0 * c0,
    ;
    assert((f * f) * b == (f * f) * (s1 * s1) + (f * f) * (c1 * c1)) by (nonlinear_arith)
        requires
            b == s1 * s1 + c1 * c1,
    ;
    assert((u * f) * dot == (u * f) * (s0 * s1) + (u * f) * (c0 * c1)) by (nonlinear_arith)
        requires
            dot == s0 * s1 + c0 * c1,
    ;
    assert(2 * ((u * f) * dot) == (u * f) * (a + b - chord)) by (nonlinear_arith)
        requires
            2 * dot == a + b - chord,
    ;
    let blend = (u * u) * a + (u * f) * (a + b - chord) + (f * f) * b;
    assert(x * x + y * y == blend);
    lemma_blend_bounds(u, f, a, b, chord);
    lemma_hundredth(x);
    lemma_hundredth(y);
    let (s, c) = (y / 100, x / 100);
    assert(10_000 * (s * s + c * c) == (s * s) * 10_000 + (c * c) * 10_000)
        by (nonlinear_arith);
}

/// In the first quarter the squares of sine and cosine add up to the square
/// of `ONE`, up to what the straight lines between the entries of the table
/// cut off.
pub proof fn lemma_quarter_circle(q: int)
    requires
        0 <= q <= 9_000,
    ensures
        -81_000_000 <= circle_gap(quarter_sine(q), quarter_sine(9_000 - q)) <= 1_130_000,
{
    let degree = q / 100;
    let part = q % 100;
    if degree == 90 {
        lemma_quarter_sine_between(0);
        assert(SINE_TABLE[0] == 0);
        assert(circle_gap(1_000_000, 0) == 0);
    } else {
        lemma_table_circle(degree);
        lemma_table_circle(degree + 1);
        lemma_table_monotone(degree, degree + 1);
        lemma_table_monotone(89 - degree, 90 - degree);
        let (s0, s1) = (SINE_TABLE[degree] as int, SINE_TABLE[degree + 1] as int);
        let (c0, c1) = (SINE_TABLE[90 - degree] as int, SINE_TABLE[89 - degree] as int);
        lemma_on_chord(s0, c0, s1, c1, part);
        assert(quarter_sine(q) == (100 * s0 + (s1 - s0) * part) / 100);
        if part == 0 {
            assert((c0 - c1) * (100 - part) == 100 * (c0 - c1)) by (nonlinear_arith)
                requires
                    part == 0,
            ;
            assert(SINE_TABLE[90] == ONE);
            lemma_quarter_sine_between(9_000 - q - if degree == 0 {
                100int
            } else {
                0int
            });
            if degree > 0 {
                assert(quarter_sine(9_000 - q) == c0);
            } else {
                assert(quarter_sine(9_000) == ONE);
            }
        } else {
            assert((9_000 - q) / 100 == 89 - degree && (9_000 - q) % 100 == 100 - part);
            assert(quarter_sine(9_000 - q) == (100 * c1 + (c0 - c1) * (100 - part)) / 100);
        }
    }
}

/// The squares of the sine and the cosine of any angle add up to the square
/// of `ONE`: they fall short of it by at most 81 millionths of it and exceed
/// it by little more than a millionth.
pub proof fn lemma_table_near_circle(a: int)
    ensures
        -81_000_000 <= circle_gap(table_sine(a), table_cosine(a)) <= 1_130_000,
{
    lemma_table_quarters(a);
    let q = quarter_of(a % 36_000);
    lemma_quarter_circle(q);
    let (s, c) = (quarter_sine(q), quarter_sine(9_000 - q));
    assert((-s) * (-s) == s * s && (-c) * (-c) == c * c) by (nonlinear_arith);
}

/// An angle within a tenth of a degree of a quarter turn either way, such as
/// a pitch within its limits, has a cosine that is positive and not small,
/// and a sine on the side of the angle.
pub proof fn lemma_table_pitch(a: int)
    requires
        -8_990 <= a <= 8_990,
    ensures
        1_745 <= table_cosine(a) <= ONE,
        -ONE <= table_sine(a) <= ONE,
        a > 0 ==> table_sine(a) >= 174,
        a < 0 ==> table_sine(a) <= -174,
        a == 0 ==> table_sine(a) == 0,
{
    lemma_table_range(a);
    lemma_quarter_sine_between(0);
    assert(SINE_TABLE[0] == 0);
    assert(quarter_sine(1) == 174) by {
        assert(SINE_TABLE[0] == 0 && SINE_TABLE[1] == 17_452);
        assert(1int / 100 == 0 && 1int % 100 == 1);
        assert((17_452 - 0) * 1 / 100 == 174int);
    }
    if a != 0 {
        lemma_quarter_sine_monotone(1, if a > 0 {
            a
        } else {
            -a
        });
    }
    let size = if a >= 0 {
        a
    } else {
        -a
    };
    assert(a % 36_000 == if a >= 0 {
        a
    } else {
        a + 36_000
    });
    assert((a + 9_000) % 36_000 == a + 9_000);
    assert(table_cosine(a) == quarter_sine(9_000 - size));
    assert(table_sine(a) == quarter_sine(size) || table_sine(a) == -quarter_sine(size));
    lemma_quarter_sine_monotone(10, 9_000 - size);
    assert(quarter_sine(10) == 1_745) by {
        assert(SINE_TABLE[0] == 0 && SINE_TABLE[1] == 17_452);
        assert(10int / 100 == 0 && 10int % 100 == 10);
        assert((17_452 - 0) * 10 / 100 == 1_745int);
    }
}

/// The pitch of a throw, from straight up to thirty degrees short of it,
/// not included: the sine is at least what it is a hundredth of a degree
/// inside that range, downwards, and the cosine at most what it is there.
pub proof fn lemma_table_throw(a: int)
    requires
        -9_000 <= a < -6_000,
    ensures
        -ONE <= table_sine(a) <= -866_110,
        0 <= table_cosine(a) <= 499_848,
{
    assert(a % 36_000 == a + 36_000);
    assert((a + 9_000) % 36_000 == a + 9_000);
    lemma_quarter_sine_monotone(6_001, -a);
    lemma_quarter_sine_monotone(a + 9_000, 2_999);
    assert(quarter_sine(6_001) == 866_110 && quarter_sine(2_999) == 499_848) by {
        assert(SINE_TABLE[60] == 866_025 && SINE_TABLE[61] == 874_620);
        assert(SINE_TABLE[29] == 484_810 && SINE_TABLE[30] == 500_000);
        assert(6_001int / 100 == 60 && 6_001int % 100 == 1);
        assert(2_999int / 100 == 29 && 2_999int % 100 == 99);
        assert((874_620 - 866_025) * 1 / 100 == 85int);
        assert((500_000 - 484_810) * 99 / 100 == 15_038int);
    }
}

/// At the angle zero the sine is zero and the cosine is `ONE`.
pub proof fn lemma_table_level()
    ensures
        table_sine(0) == 0,
        table_cosine(0) == ONE,
{
    lemma_quarter_sine_between(0);
    assert(SINE_TABLE[0] == 0);
    assert(quarter_sine(9_000) == ONE);
}

fn quarter_sin(q: i64) -> (r: i64)
    requires
        0 <= q <= 9_000,
    ensures
        r == quarter_sine(q as int),
        0 <= r <= ONE,
{
    proof {
        lemma_quarter_sine_monotone(q as int, q as int);
    }
    let degree: usize = (q / 100) as usize;
    let part: i64 = q % 100;
    if degree >= 90 {
        ONE
    } else {
        proof {
            lemma_table_rises(degree as int);
        }
        let low: i64 = SINE_TABLE[degree];
        let high: i64 = SINE_TABLE[degree + 1];
        let rise: i64 = high - low;
        assert(0 <= rise * part <= 100_000_000) by (nonlinear_arith)
            requires
                0 <= rise <= 1_000_000,
                0 <= part < 100,
        ;
        low + rise * part / 100
    }
}

fn turn_sin(a: i64) -> (r: i64)
    requires
        0 <= a < 36_000,
    ensures
        r == turn_sine(a as int),
        -ONE <= r <= ONE,
{
    if a <= 9_000 {
        quarter_sin(a)
    } else if a <= 18_000 {
        quarter_sin(18_000 - a)
    } else if a <= 27_000 {
        -quarter_sin(a - 18_000)
    } else {
        -quarter_sin(36_000 - a)
    }
}

/// The angle of the first turn that points the same way as `a`.
pub fn first_turn(a: i64) -> (r: i64)
    ensures
        r == (a as int) % 36_000,
        0 <= r < FULL_TURN,
{
    let m: i64 = a % 36_000;
    if m < 0 {
        m + 36_000
    } else {
        m
    }
}

/// The sine of `a` hundredths of a degree, as the table gives it.
pub fn table_sin(a: i64) -> (r: i64)
    ensures
        r == table_sine(a as int),
        -ONE <= r <= ONE,
{
    turn_sin(first_turn(a))
}

proof fn lemma_quarter_ahead(a: int)
    ensures
        (a % 36_000 + 9_000) % 36_000 == (a + 9_000) % 36_000,
{
}

/// The cosine of `a` hundredths of a degree, as the table gives it.
pub fn table_cos(a: i64) -> (r: i64)
    ensures
        r == table_cosine(a as int),
        -ONE <= r <= ONE,
{
    let within: i64 = first_turn(a);
    let ahead: i64 = first_turn(within + 9_000);
    proof {
        lemma_quarter_ahead(a as int);
    }
    turn_sin(ahead)
}

} // verus!
