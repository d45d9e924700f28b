use binomial_lattice::fixed::{power_table, Fixed, HALF, LIMIT, SCALE};

fn fx(raw: i128) -> Fixed {
    Fixed::from_raw(raw)
}

#[test]
fn scale_has_eighteen_decimal_places() {
    assert_eq!(SCALE, 1_000_000_000_000_000_000);
    assert_eq!(HALF * 2, SCALE);
    assert_eq!(LIMIT, 10_000_000_000 * SCALE);
    assert_eq!(Fixed::one().raw(), SCALE);
    assert_eq!(Fixed::zero().raw(), 0);
    assert_eq!(Fixed::one(), Fixed::from_raw(SCALE));
    assert_eq!(Fixed::zero(), Fixed::from_raw(0));
}

#[test]
fn from_count_scales_whole_numbers() {
    assert_eq!(Fixed::from_count(0), fx(0));
    assert_eq!(Fixed::from_count(3), fx(3_000_000_000_000_000_000));
    assert_eq!(Fixed::from_count(u32::MAX), fx(4_294_967_295_000_000_000_000_000_000));
}

#[test]
fn raw_value_within_the_limit_is_kept() {
    assert_eq!(fx(17).raw(), 17);
    assert_eq!(fx(-17).raw(), -17);
    assert_eq!(fx(LIMIT).raw(), LIMIT);
    assert_eq!(fx(-LIMIT).raw(), -LIMIT);
}

#[test]
fn raw_value_beyond_the_limit_is_the_limit() {
    assert_eq!(fx(LIMIT + 1).raw(), LIMIT);
    assert_eq!(fx(-LIMIT - 1).raw(), -LIMIT);
    assert_eq!(fx(i128::MAX).raw(), LIMIT);
    assert_eq!(fx(i128::MIN).raw(), -LIMIT);
}

#[test]
fn add_is_exact_within_the_limit() {
    assert_eq!(
        fx(1_500_000_000_000_000_000).saturating_add(fx(2_250_000_000_000_000_000)),
        fx(3_750_000_000_000_000_000)
    );
    assert_eq!(fx(-7).saturating_add(fx(4)), fx(-3));
    assert_eq!(fx(LIMIT).saturating_add(fx(-LIMIT)), fx(0));
    assert_eq!(fx(9_999_999_999_999_999_999_999_999_999).saturating_add(fx(1)), fx(LIMIT));
    assert_eq!(
        fx(123_456_789_012_345_678_901_234_567)
            .saturating_add(fx(-23_456_789_012_345_678_901_234_567)),
        fx(100_000_000_000_000_000_000_000_000)
    );
}

#[test]
fn add_saturates_at_the_limit() {
    assert_eq!(fx(LIMIT).saturating_add(fx(1)), fx(LIMIT));
    assert_eq!(fx(-LIMIT).saturating_add(fx(-1)), fx(-LIMIT));
    assert_eq!(fx(LIMIT).saturating_add(fx(LIMIT)), fx(LIMIT));
    assert_eq!(fx(-LIMIT).saturating_add(fx(-LIMIT)), fx(-LIMIT));
    assert_eq!(fx(i128::MAX).saturating_add(fx(0)), fx(LIMIT));
    assert_eq!(fx(i128::MIN).saturating_add(fx(0)), fx(-LIMIT));
    assert_eq!(fx(i128::MAX).saturating_add(fx(i128::MAX)), fx(LIMIT));
    assert_eq!(fx(i128::MAX).saturating_add(fx(-LIMIT)), fx(0));
    assert_eq!(fx(i128::MIN).saturating_add(fx(i128::MAX)), fx(0));
}

#[test]
fn sub_is_exact_within_the_limit() {
    assert_eq!(
        fx(1_000_000_000_000_000_000).saturating_sub(fx(543_776_598_021_714_055)),
        fx(456_223_401_978_285_945)
    );
    assert_eq!(fx(4).saturating_sub(fx(9)), fx(-5));
    assert_eq!(fx(LIMIT).saturating_sub(fx(LIMIT)), fx(0));
    assert_eq!(fx(0).saturating_sub(fx(LIMIT)), fx(-LIMIT));
    assert_eq!(fx(-9_999_999_999_999_999_999_999_999_995).saturating_sub(fx(5)), fx(-LIMIT));
}

#[test]
fn sub_saturates_at_the_limit() {
    assert_eq!(fx(-LIMIT).saturating_sub(fx(1)), fx(-LIMIT));
    assert_eq!(fx(LIMIT).saturating_sub(fx(-1)), fx(LIMIT));
    assert_eq!(fx(LIMIT).saturating_sub(fx(-LIMIT)), fx(LIMIT));
    assert_eq!(fx(-LIMIT).saturating_sub(fx(LIMIT)), fx(-LIMIT));
    assert_eq!(fx(i128::MIN).saturating_sub(fx(i128::MAX)), fx(-LIMIT));
    assert_eq!(fx(0).saturating_sub(fx(i128::MIN)), fx(LIMIT));
    assert_eq!(fx(i128::MAX).saturating_sub(fx(LIMIT)), fx(0));
}

#[test]
fn neg_flips_the_sign() {
    assert_eq!(fx(5).saturating_neg(), fx(-5));
    assert_eq!(fx(-5).saturating_neg(), fx(5));
    assert_eq!(fx(0).saturating_neg(), fx(0));
    assert_eq!(fx(LIMIT).saturating_neg(), fx(-LIMIT));
    assert_eq!(fx(-LIMIT).saturating_neg(), fx(LIMIT));
    assert_eq!(fx(i128::MAX).saturating_neg(), fx(-LIMIT));
    assert_eq!(fx(i128::MIN).saturating_neg(), fx(LIMIT));
}

#[test]
fn mul_rescales_the_product() {
    assert_eq!(
        fx(1_500_000_000_000_000_000).saturating_mul(fx(2_500_000_000_000_000_000)),
        fx(3_750_000_000_000_000_000)
    );
    assert_eq!(
        fx(-1_500_000_000_000_000_000).saturating_mul(fx(2_500_000_000_000_000_000)),
        fx(-3_750_000_000_000_000_000)
    );
    assert_eq!(
        fx(1_500_000_000_000_000_000).saturating_mul(fx(-2_500_000_000_000_000_000)),
        fx(-3_750_000_000_000_000_000)
    );
    assert_eq!(
        fx(-1_500_000_000_000_000_000).saturating_mul(fx(-2_500_000_000_000_000_000)),
        fx(3_750_000_000_000_000_000)
    );
    assert_eq!(
        fx(123_456_789_012_345_678).saturating_mul(fx(1_000_000_000_000_000_000)),
        fx(123_456_789_012_345_678)
    );
    assert_eq!(fx(123_456_789_012_345_678).saturating_mul(fx(0)), fx(0));
    assert_eq!(
        fx(-1_000_000_000_000_000_000).saturating_mul(fx(1_000_000_000_000_000_000)),
        fx(-1_000_000_000_000_000_000)
    );
    assert_eq!(
        fx(100_000_000_000_000_000_000).saturating_mul(fx(1_122_400_902_445_667_526)),
        fx(112_240_090_244_566_752_600)
    );
    assert_eq!(
        fx(543_776_598_021_714_055).saturating_mul(fx(41_398_246_003_907_160_000)),
        fx(22_511_397_376_070_653_963)
    );
}

#[test]
fn mul_rounds_to_nearest_with_ties_upwards() {
    assert_eq!(fx(1).saturating_mul(fx(500_000_000_000_000_000)), fx(1));
    assert_eq!(fx(-1).saturating_mul(fx(500_000_000_000_000_000)), fx(0));
    assert_eq!(fx(3).saturating_mul(fx(500_000_000_000_000_000)), fx(2));
    assert_eq!(fx(-3).saturating_mul(fx(500_000_000_000_000_000)), fx(-1));
    assert_eq!(fx(1).saturating_mul(fx(499_999_999_999_999_999)), fx(0));
    assert_eq!(fx(-1).saturating_mul(fx(500_000_000_000_000_001)), fx(-1));
    assert_eq!(fx(1).saturating_mul(fx(500_000_000_000_000_001)), fx(1));
    assert_eq!(fx(-1).saturating_mul(fx(499_999_999_999_999_999)), fx(0));
    assert_eq!(fx(7).saturating_mul(fx(100_000_000_000_000_000)), fx(1));
    assert_eq!(fx(-7).saturating_mul(fx(100_000_000_000_000_000)), fx(-1));
    assert_eq!(
        fx(333_333_333_333_333_333).saturating_mul(fx(3_000_000_000_000_000_000)),
        fx(999_999_999_999_999_999)
    );
    assert_eq!(
        fx(-333_333_333_333_333_333).saturating_mul(fx(3_000_000_000_000_000_000)),
        fx(-999_999_999_999_999_999)
    );
}

#[test]
fn mul_of_large_operands_is_exact() {
    assert_eq!(fx(LIMIT).saturating_mul(fx(1_000_000_000_000_000_000)), fx(LIMIT));
    assert_eq!(fx(LIMIT).saturating_mul(fx(-1_000_000_000_000_000_000)), fx(-LIMIT));
    assert_eq!(
        fx(9_999_999_999_999_999_999_999_999_999).saturating_mul(fx(999_999_999_999_999_999)),
        fx(9_999_999_999_999_999_989_999_999_999)
    );
    assert_eq!(
        fx(-9_999_999_999_999_999_999_999_999_999).saturating_mul(fx(999_999_999_999_999_999)),
        fx(-9_999_999_999_999_999_989_999_999_999)
    );
    assert_eq!(
        fx(9_999_999_999_999_999_999_999_999_999).saturating_mul(fx(999_999_999_999_999_999)),
        fx(9_999_999_999_999_999_989_999_999_999)
    );
    assert_eq!(
        fx(100_000_000_000_000_000_000_000).saturating_mul(fx(100_000_000_000_000_000_000_000)),
        fx(LIMIT)
    );
    assert_eq!(
        fx(99_999_999_999_999_999_999_999).saturating_mul(fx(100_000_000_000_000_000_000_000)),
        fx(9_999_999_999_999_999_999_999_900_000)
    );
    assert_eq!(
        fx(31_622_776_601_683_793_319_988).saturating_mul(fx(31_622_776_601_683_793_319_988)),
        fx(999_999_999_999_999_999_999_940_837)
    );
    assert_eq!(
        fx(1_234_567_890_123_456_789_012_345_678).saturating_mul(fx(8_100_000_000_000_000_000)),
        fx(9_999_999_909_999_999_990_999_999_992)
    );
    assert_eq!(
        fx(4_294_967_295_000_000_000_000_000_000).saturating_mul(fx(2_000_000_000_000_000_000)),
        fx(8_589_934_590_000_000_000_000_000_000)
    );
    assert_eq!(fx(LIMIT).saturating_mul(fx(1)), fx(10_000_000_000));
    assert_eq!(
        fx(LIMIT).saturating_mul(fx(500_000_000_000_000_000)),
        fx(5_000_000_000_000_000_000_000_000_000)
    );
    assert_eq!(fx(1_000_000_000).saturating_mul(fx(1_000_000_000)), fx(1));
    assert_eq!(fx(999_999_999).saturating_mul(fx(1_000_000_001)), fx(1));
}

#[test]
fn mul_saturates_at_the_limit() {
    assert_eq!(fx(LIMIT).saturating_mul(fx(2_000_000_000_000_000_000)), fx(LIMIT));
    assert_eq!(fx(-LIMIT).saturating_mul(fx(2_000_000_000_000_000_000)), fx(-LIMIT));
    assert_eq!(fx(-LIMIT).saturating_mul(fx(-1_000_000_000_000_000_001)), fx(LIMIT));
    assert_eq!(fx(LIMIT).saturating_mul(fx(LIMIT)), fx(LIMIT));
    assert_eq!(fx(-LIMIT).saturating_mul(fx(LIMIT)), fx(-LIMIT));
    assert_eq!(fx(-LIMIT).saturating_mul(fx(-LIMIT)), fx(LIMIT));
    assert_eq!(
        fx(100_001_000_000_000_000_000_000).saturating_mul(fx(100_000_000_000_000_000_000_000)),
        fx(LIMIT)
    );
    assert_eq!(fx(i128::MAX).saturating_mul(fx(1_000_000_000_000_000_000)), fx(LIMIT));
    assert_eq!(fx(i128::MIN).saturating_mul(fx(1_000_000_000_000_000_000)), fx(-LIMIT));
    assert_eq!(fx(i128::MAX).saturating_mul(fx(i128::MIN)), fx(-LIMIT));
    assert_eq!(fx(i128::MIN).saturating_mul(fx(i128::MIN)), fx(LIMIT));
    assert_eq!(fx(LIMIT).saturating_mul(fx(1_000_000_000_000_000_001)), fx(LIMIT));
}

#[test]
fn div_rescales_the_quotient() {
    assert_eq!(
        fx(7_000_000_000_000_000_000).saturating_div(fx(2_000_000_000_000_000_000)),
        fx(3_500_000_000_000_000_000)
    );
    assert_eq!(
        fx(1_000_000_000_000_000_000).saturating_div(fx(1_000_000_000)),
        fx(1_000_000_000_000_000_000_000_000_000)
    );
    assert_eq!(fx(LIMIT).saturating_div(fx(LIMIT)), fx(1_000_000_000_000_000_000));
    assert_eq!(fx(LIMIT).saturating_div(fx(-LIMIT)), fx(-1_000_000_000_000_000_000));
    assert_eq!(fx(-LIMIT).saturating_div(fx(-LIMIT)), fx(1_000_000_000_000_000_000));
    assert_eq!(
        fx(1_000_000_000_000_000_000).saturating_div(fx(1_000_000_000_000_000_000)),
        fx(1_000_000_000_000_000_000)
    );
    assert_eq!(fx(0).saturating_div(fx(1_000_000_000_000_000_000)), fx(0));
    assert_eq!(fx(0).saturating_div(fx(-1_000_000_000_000_000_000)), fx(0));
    assert_eq!(
        fx(100_000_000_000_000_000_000).saturating_div(fx(3_000_000_000_000_000_000)),
        fx(33_333_333_333_333_333_333)
    );
    assert_eq!(
        fx(1_000_000_000_000_000_000).saturating_div(fx(1_122_400_902_445_667_526)),
        fx(890_947_252_288_410_708)
    );
    assert_eq!(fx(LIMIT).saturating_div(fx(LIMIT)), fx(1_000_000_000_000_000_000));
    assert_eq!(fx(1).saturating_div(fx(1_000_000_000_000_000_000)), fx(1));
    assert_eq!(fx(1_000_000_000_000_000_000).saturating_div(fx(LIMIT)), fx(100_000_000));
    assert_eq!(fx(999_999_999_999_999_999).saturating_div(fx(LIMIT)), fx(100_000_000));
}

#[test]
fn div_rounds_to_nearest_for_every_sign() {
    assert_eq!(
        fx(1_000_000_000_000_000_000).saturating_div(fx(3_000_000_000_000_000_000)),
        fx(333_333_333_333_333_333)
    );
    assert_eq!(
        fx(2_000_000_000_000_000_000).saturating_div(fx(3_000_000_000_000_000_000)),
        fx(666_666_666_666_666_667)
    );
    assert_eq!(
        fx(-1_000_000_000_000_000_000).saturating_div(fx(3_000_000_000_000_000_000)),
        fx(-333_333_333_333_333_333)
    );
    assert_eq!(
        fx(-2_000_000_000_000_000_000).saturating_div(fx(3_000_000_000_000_000_000)),
        fx(-666_666_666_666_666_667)
    );
    assert_eq!(
        fx(1_000_000_000_000_000_000).saturating_div(fx(-3_000_000_000_000_000_000)),
        fx(-333_333_333_333_333_333)
    );
    assert_eq!(
        fx(2_000_000_000_000_000_000).saturating_div(fx(-3_000_000_000_000_000_000)),
        fx(-666_666_666_666_666_667)
    );
    assert_eq!(
        fx(-1_000_000_000_000_000_000).saturating_div(fx(-3_000_000_000_000_000_000)),
        fx(333_333_333_333_333_333)
    );
    assert_eq!(
        fx(-2_000_000_000_000_000_000).saturating_div(fx(-3_000_000_000_000_000_000)),
        fx(666_666_666_666_666_667)
    );
    assert_eq!(
        fx(1_000_000_000_000_000_000).saturating_div(fx(7_000_000_000_000_000_000)),
        fx(142_857_142_857_142_857)
    );
    assert_eq!(
        fx(-1_000_000_000_000_000_000).saturating_div(fx(7_000_000_000_000_000_000)),
        fx(-142_857_142_857_142_857)
    );
    assert_eq!(
        fx(22_000_000_000_000_000_000).saturating_div(fx(7_000_000_000_000_000_000)),
        fx(3_142_857_142_857_142_857)
    );
}

#[test]
fn div_breaks_ties_upwards() {
    assert_eq!(fx(1).saturating_div(fx(2_000_000_000_000_000_000)), fx(1));
    assert_eq!(fx(-1).saturating_div(fx(2_000_000_000_000_000_000)), fx(0));
    assert_eq!(fx(1).saturating_div(fx(-2_000_000_000_000_000_000)), fx(0));
    assert_eq!(fx(-1).saturating_div(fx(-2_000_000_000_000_000_000)), fx(1));
    assert_eq!(fx(3).saturating_div(fx(2_000_000_000_000_000_000)), fx(2));
    assert_eq!(fx(-3).saturating_div(fx(2_000_000_000_000_000_000)), fx(-1));
    assert_eq!(fx(1).saturating_div(fx(LIMIT)), fx(0));
    assert_eq!(fx(5).saturating_div(fx(10_000_000_000_000_000_000)), fx(1));
    assert_eq!(fx(-5).saturating_div(fx(10_000_000_000_000_000_000)), fx(0));
    assert_eq!(fx(15).saturating_div(fx(10_000_000_000_000_000_000)), fx(2));
    assert_eq!(fx(-15).saturating_div(fx(10_000_000_000_000_000_000)), fx(-1));
}

#[test]
fn div_by_zero_is_the_limit_on_the_side_of_the_dividend() {
    assert_eq!(fx(5_000_000_000_000_000_000).saturating_div(fx(0)), fx(LIMIT));
    assert_eq!(fx(-5_000_000_000_000_000_000).saturating_div(fx(0)), fx(-LIMIT));
    assert_eq!(fx(0).saturating_div(fx(0)), fx(0));
    assert_eq!(fx(1).saturating_div(fx(0)), fx(LIMIT));
    assert_eq!(fx(-1).saturating_div(fx(0)), fx(-LIMIT));
    assert_eq!(fx(i128::MAX).saturating_div(fx(0)), fx(LIMIT));
    assert_eq!(fx(i128::MIN).saturating_div(fx(0)), fx(-LIMIT));
}

#[test]
fn div_saturates_at_the_limit() {
    assert_eq!(fx(LIMIT).saturating_div(fx(500_000_000_000_000_000)), fx(LIMIT));
    assert_eq!(fx(-LIMIT).saturating_div(fx(500_000_000_000_000_000)), fx(-LIMIT));
    assert_eq!(fx(-LIMIT).saturating_div(fx(-500_000_000_000_000_000)), fx(LIMIT));
    assert_eq!(fx(LIMIT).saturating_div(fx(-500_000_000_000_000_000)), fx(-LIMIT));
    assert_eq!(fx(1_000_000_000_000_000_000).saturating_div(fx(1)), fx(LIMIT));
    assert_eq!(fx(1_000_000_000_000_000_000).saturating_div(fx(-1)), fx(-LIMIT));
    assert_eq!(fx(10_000_000_000).saturating_div(fx(1)), fx(LIMIT));
    assert_eq!(fx(9_999_999_999).saturating_div(fx(1)), fx(9_999_999_999_000_000_000_000_000_000));
    assert_eq!(fx(10_000_000_001).saturating_div(fx(1)), fx(LIMIT));
    assert_eq!(fx(-10_000_000_000).saturating_div(fx(1)), fx(-LIMIT));
    assert_eq!(fx(LIMIT).saturating_div(fx(999_999_999_999_999_999)), fx(LIMIT));
    assert_eq!(fx(i128::MAX).saturating_div(fx(1_000_000_000_000_000_000)), fx(LIMIT));
    assert_eq!(fx(i128::MIN).saturating_div(fx(1_000_000_000_000_000_000)), fx(-LIMIT));
    assert_eq!(fx(1_000_000_000_000_000_000).saturating_div(fx(i128::MAX)), fx(100_000_000));
    assert_eq!(fx(i128::MAX).saturating_div(fx(i128::MIN)), fx(-1_000_000_000_000_000_000));
    assert_eq!(
        fx(2_000_000_000_000_000_000).saturating_div(fx(200_000_001)),
        fx(9_999_999_950_000_000_249_999_998_750)
    );
}

#[test]
fn div_of_large_operands_is_exact() {
    assert_eq!(
        fx(9_999_999_999_999_999_999_999_999_999).saturating_div(fx(LIMIT)),
        fx(1_000_000_000_000_000_000)
    );
    assert_eq!(
        fx(LIMIT).saturating_div(fx(9_999_999_999_999_999_999_999_999_999)),
        fx(1_000_000_000_000_000_000)
    );
    assert_eq!(
        fx(9_999_999_999_999_999_999_999_999_999)
            .saturating_div(fx(9_999_999_999_999_999_999_999_999_998)),
        fx(1_000_000_000_000_000_000)
    );
    assert_eq!(
        fx(1_234_567_890_123_456_789_012_345_678).saturating_div(fx(8_100_000_000_000_000_000)),
        fx(152_415_788_904_130_467_779_301_936)
    );
    assert_eq!(fx(9_999_999_999_999_999_999_999_999_999).saturating_div(fx(3)), fx(LIMIT));
    assert_eq!(fx(9_999_999_999).saturating_div(fx(3)), fx(3_333_333_333_000_000_000_000_000_000));
    assert_eq!(
        fx(LIMIT).saturating_div(fx(3_000_000_000_000_000_000)),
        fx(3_333_333_333_333_333_333_333_333_333)
    );
    assert_eq!(
        fx(-LIMIT).saturating_div(fx(7_000_000_000_000_000_000)),
        fx(-1_428_571_428_571_428_571_428_571_429)
    );
    assert_eq!(
        fx(31_622_776_601_683_793_319_988).saturating_div(fx(31_622_776_601_683_793_319)),
        fx(1_000_000_000_000_000_000_031)
    );
    assert_eq!(
        fx(5_000_000_000_000_000_000).saturating_div(fx(999_999_999_000_000_000_000_000_001)),
        fx(5_000_000_005)
    );
    assert_eq!(
        fx(123_456_789_000_000_000_000_000_000)
            .saturating_div(fx(9_999_999_999_999_999_999_999_987_655)),
        fx(12_345_678_900_000_000)
    );
}

#[test]
fn sqrt_of_squares_is_exact() {
    assert_eq!(fx(4_000_000_000_000_000_000).sqrt(), fx(2_000_000_000_000_000_000));
    assert_eq!(fx(250_000_000_000_000_000).sqrt(), fx(500_000_000_000_000_000));
    assert_eq!(fx(0).sqrt(), fx(0));
    assert_eq!(fx(1_000_000_000_000_000_000).sqrt(), fx(1_000_000_000_000_000_000));
    assert_eq!(fx(LIMIT).sqrt(), fx(100_000_000_000_000_000_000_000));
    assert_eq!(fx(100_000_000_000_000_000_000).sqrt(), fx(10_000_000_000_000_000_000));
    assert_eq!(fx(1).sqrt(), fx(1_000_000_000));
    assert_eq!(fx(1_440_000_000_000_000_000).sqrt(), fx(1_200_000_000_000_000_000));
    assert_eq!(fx(1).sqrt(), fx(1_000_000_000));
    assert_eq!(fx(400_000_000_000_000).sqrt(), fx(20_000_000_000_000_000));
}

#[test]
fn sqrt_rounds_down() {
    assert_eq!(fx(2_000_000_000_000_000_000).sqrt(), fx(1_414_213_562_373_095_048));
    assert_eq!(fx(333_333_333_333_333_333).sqrt(), fx(577_350_269_189_625_764));
    assert_eq!(fx(3).sqrt(), fx(1_732_050_807));
    assert_eq!(fx(2).sqrt(), fx(1_414_213_562));
    assert_eq!(
        fx(9_999_999_999_999_999_999_999_999_999).sqrt(),
        fx(99_999_999_999_999_999_999_999)
    );
    assert_eq!(fx(500_000_000_000_000_000).sqrt(), fx(707_106_781_186_547_524));
    assert_eq!(fx(10_000_000_000_000_000_000).sqrt(), fx(3_162_277_660_168_379_331));
    assert_eq!(fx(99_999_999_999_999_999).sqrt(), fx(316_227_766_016_837_931));
    assert_eq!(fx(333_333_333_333_333_333).sqrt(), fx(577_350_269_189_625_764));
    assert_eq!(fx(i128::MAX).sqrt(), fx(100_000_000_000_000_000_000_000));
}

#[test]
fn sqrt_is_the_largest_root_whose_square_fits() {
    for raw in [
        1i128,
        2,
        10,
        999,
        123_456_789,
        1_000_000_000_000_000_001,
        987_654_321_987_654_321_987,
        LIMIT - 1,
    ] {
        let root = fx(raw).sqrt().raw();
        assert!(root >= 0);
        // root^2 <= raw * SCALE < (root + 1)^2, compared without overflow
        assert!(root / 1_000_000_000 <= 100_000_000_000_000);
        let high = root / 1_000_000_000;
        let low = root % 1_000_000_000;
        let excess = raw - high * high;
        assert!(excess >= 0);
        assert!(low * (2 * high * 1_000_000_000 + low) <= excess * SCALE);
        let next = low + 1;
        if next < 1_000_000_000 {
            assert!(next * (2 * high * 1_000_000_000 + next) > excess * SCALE);
        } else {
            assert!((high + 1) * (high + 1) > raw);
        }
    }
}

#[test]
fn positive_part_clips_negative_values() {
    assert_eq!(fx(17).positive_part(), fx(17));
    assert_eq!(fx(0).positive_part(), fx(0));
    assert_eq!(fx(-17).positive_part(), fx(0));
    assert_eq!(fx(-LIMIT).positive_part(), fx(0));
    assert_eq!(fx(LIMIT).positive_part(), fx(LIMIT));
}

#[test]
fn numbers_beyond_the_limit_are_the_limit() {
    assert_eq!(fx(i128::MAX), fx(LIMIT));
    assert_eq!(fx(i128::MIN), fx(-LIMIT));
    assert_eq!(fx(LIMIT + 1), fx(LIMIT));
    assert_eq!(fx(i128::MAX).positive_part(), fx(LIMIT));
    assert_eq!(fx(i128::MIN).positive_part(), fx(0));
}

#[test]
fn power_table_lists_successive_powers() {
    let table = power_table(fx(1_100_000_000_000_000_000), 3);
    assert_eq!(
        table,
        vec![
            fx(1_000_000_000_000_000_000),
            fx(1_100_000_000_000_000_000),
            fx(1_210_000_000_000_000_000),
            fx(1_331_000_000_000_000_000),
        ]
    );
}

#[test]
fn power_table_of_length_one_holds_one() {
    let table = power_table(fx(123), 0);
    assert_eq!(
        table,
        vec![fx(1_000_000_000_000_000_000)]
    );
}

#[test]
fn power_table_rounds_after_every_product() {
    let table = power_table(fx(1_000_000_000_000_000_001), 3);
    assert_eq!(
        table,
        vec![
            fx(1_000_000_000_000_000_000),
            fx(1_000_000_000_000_000_001),
            fx(1_000_000_000_000_000_002),
            fx(1_000_000_000_000_000_003),
        ]
    );
}

#[test]
fn power_table_alternates_sign_for_a_negative_base() {
    let table = power_table(fx(-2_000_000_000_000_000_000), 3);
    assert_eq!(
        table,
        vec![
            fx(1_000_000_000_000_000_000),
            fx(-2_000_000_000_000_000_000),
            fx(4_000_000_000_000_000_000),
            fx(-8_000_000_000_000_000_000),
        ]
    );
}

#[test]
fn power_table_saturates() {
    let table = power_table(fx(1_000_000_000_000_000_000_000), 5);
    assert_eq!(
        table,
        vec![
            fx(1_000_000_000_000_000_000),
            fx(1_000_000_000_000_000_000_000),
            fx(1_000_000_000_000_000_000_000_000),
            fx(1_000_000_000_000_000_000_000_000_000),
            fx(LIMIT),
            fx(LIMIT),
        ]
    );
}

#[test]
fn power_table_of_the_reference_up_factor() {
    let table = power_table(fx(1_122_400_902_445_667_526), 3);
    assert_eq!(
        table,
        vec![
            fx(1_000_000_000_000_000_000),
            fx(1_122_400_902_445_667_526),
            fx(1_259_783_785_810_848_871),
            fx(1_413_982_458_080_516_297),
        ]
    );
}

#[test]
fn powers_of_one_are_one() {
    let table = power_table(Fixed::one(), 50);
    assert_eq!(table.len(), 51);
    assert!(table.iter().all(|p| *p == Fixed::one()));
}
