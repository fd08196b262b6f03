use evm::tick_math::{sqrt_price_at_tick, tick_high, tick_low, TickError, MAX_TICK};
use evm::uint::U160;

#[test]
fn test_tick_low() {
    let tick = 1000;
    let tick_spacing = 60;
    let expected_tick_low = 960;

    let result = tick_low(tick, tick_spacing).unwrap();
    assert_eq!(result, expected_tick_low);
}

#[test]
fn test_tick_low_negative() {
    let tick = -1000;
    let tick_spacing = 60;
    let expected_tick_low = -1020;

    let result = tick_low(tick, tick_spacing).unwrap();
    assert_eq!(result, expected_tick_low);
}

#[test]
fn test_tick_low_returns_within_bounds() {
    let tick = -MAX_TICK;
    let tick_spacing = 60;
    let result = tick_low(tick, tick_spacing).unwrap();
    assert!(result >= -MAX_TICK && result <= MAX_TICK);
}

#[test]
fn test_tick_high() {
    let tick = 1000;
    let tick_spacing = 60;
    let expected_tick_high = 1020;

    let result = tick_high(tick, tick_spacing).unwrap();
    assert_eq!(result, expected_tick_high);
}

#[test]
fn test_tick_high_negative() {
    let tick = -1000;
    let tick_spacing = 60;
    let expected_tick_high = -960;

    let result = tick_high(tick, tick_spacing).unwrap();
    assert_eq!(result, expected_tick_high);
}

#[test]
fn test_tick_high_returns_within_bounds() {
    let tick = MAX_TICK;
    let tick_spacing = 60;
    let result = tick_high(tick, tick_spacing).unwrap();
    assert!(result >= -MAX_TICK && result <= MAX_TICK);
}

fn u160_value(x: &U160) -> (u64, u64, u64) {
    let l = x.as_limbs();
    (l[0], l[1], l[2])
}

fn u160_from_u128(x: u128) -> U160 {
    U160::from_limbs([x as u64, (x >> 64) as u64, 0])
}

#[test]
fn sqrt_price_at_zero_tick_is_one() {
    let p = sqrt_price_at_tick(0).unwrap();
    assert_eq!(u160_value(&p), u160_value(&u160_from_u128(1u128 << 96)));
}

#[test]
fn sqrt_price_at_positive_and_negative_ticks() {
    let up = sqrt_price_at_tick(1000).unwrap();
    assert_eq!(u160_value(&up), u160_value(&u160_from_u128(83290069058676223003182343270)));
    let down = sqrt_price_at_tick(-1000).unwrap();
    assert_eq!(u160_value(&down), u160_value(&u160_from_u128(75364347830767020784054125655)));
}

#[test]
fn sqrt_price_at_extreme_ticks() {
    let min = sqrt_price_at_tick(-MAX_TICK).unwrap();
    assert_eq!(u160_value(&min), u160_value(&u160_from_u128(4295128739)));
    let max = sqrt_price_at_tick(MAX_TICK).unwrap();
    let expected = U160::from_limbs([0x5d951d5263988d26, 0xefd1fc6a50648849, 0xfffd8963]);
    assert_eq!(u160_value(&max), u160_value(&expected));
}

#[test]
fn sqrt_price_rejects_out_of_range_ticks() {
    assert_eq!(sqrt_price_at_tick(MAX_TICK + 1), Err(TickError::TickOutOfBounds(MAX_TICK + 1)));
    assert_eq!(sqrt_price_at_tick(-MAX_TICK - 1), Err(TickError::TickOutOfBounds(-MAX_TICK - 1)));
}

#[test]
fn sqrt_price_grows_with_tick() {
    let mut previous = sqrt_price_at_tick(-5000).unwrap();
    for tick in [-4000, -100, -1, 0, 1, 100, 4000, 200000] {
        let next = sqrt_price_at_tick(tick).unwrap();
        let (a, b) = (u160_value(&previous), u160_value(&next));
        assert!((a.2, a.1, a.0) < (b.2, b.1, b.0));
        previous = next;
    }
}

#[test]
fn tick_low_clamps_to_min_tick() {
    assert_eq!(tick_low(-MAX_TICK, 200).unwrap(), -MAX_TICK);
    assert_eq!(tick_low(-887200, 200).unwrap(), -887200);
}

#[test]
fn tick_bounds_reject_out_of_range_ticks() {
    assert_eq!(tick_low(MAX_TICK + 1, 60), Err(TickError::TickOutOfBounds(MAX_TICK + 1)));
    assert_eq!(tick_high(-MAX_TICK - 1, 60), Err(TickError::TickOutOfBounds(-MAX_TICK - 1)));
}

#[test]
fn tick_high_clamps_to_max_tick() {
    assert_eq!(tick_high(887270, 60).unwrap(), MAX_TICK);
}

#[test]
fn tick_high_with_a_spacing_wider_than_the_range() {
    assert_eq!(tick_low(887272, 8_000_000), Ok(0));
    assert_eq!(tick_high(887272, 8_000_000), Ok(887272));
    assert_eq!(tick_low(-887272, 8_000_000), Ok(-887272));
    assert_eq!(tick_high(-887272, 8_000_000), Ok(887272));
}

#[test]
fn tick_low_at_multiples_is_the_tick() {
    assert_eq!(tick_low(120, 60).unwrap(), 120);
    assert_eq!(tick_high(120, 60).unwrap(), 180);
    assert_eq!(tick_low(-120, 60).unwrap(), -120);
}

fn price_limbs(tick: i32) -> (u64, u64, u64) {
    let limbs = sqrt_price_at_tick(tick).unwrap().as_limbs();
    (limbs[2], limbs[1], limbs[0])
}

#[test]
fn sqrt_price_grows_with_the_tick() {
    for t in [-MAX_TICK, -MAX_TICK + 1, -443636, -1, 0, 1, 2, 443636, MAX_TICK - 1] {
        assert!(price_limbs(t) < price_limbs(t + 1), "tick {}", t);
    }
}

#[test]
fn tick_high_fits_for_the_widest_spacing() {
    let spacing = 0x7f_ffff;
    assert_eq!(tick_high(MAX_TICK, spacing), Ok(MAX_TICK));
    assert_eq!(tick_high(-MAX_TICK, spacing), Ok(MAX_TICK));
    assert_eq!(tick_high(0, 887272), Ok(MAX_TICK));
}
