use evm::pool_state::{PoolState, PoolStateError};
use evm::tick_math::TickError;
use evm::uint::{U160, U256};

const POOL_STATE_WBTC_USDC: PoolState = PoolState {
    sqrt_price_x96: U160 { limbs: [17134602959287796597, 139272449984, 0] },
    liquidity: 50170120777514,
    tick: 69583,
};

fn value(x: &U256) -> u128 {
    x.to_u128().unwrap()
}

#[test]
fn test_max_swap_x() {
    let pool_state = POOL_STATE_WBTC_USDC;

    let max_swap_x = pool_state.swap_limit_x(60).unwrap();
    let virtual_reserve_x = pool_state.virtual_reserve_x();

    assert!(
        value(&max_swap_x) < value(&virtual_reserve_x),
        "Max swap X exceeds virtual reserve X"
    );
    assert!(value(&max_swap_x) > 0, "Max swap X should be greater than zero");
}

#[test]
fn test_max_swap_x_1() {
    let pool_state = PoolState {
        sqrt_price_x96: U160::from_limbs([5277553418330626170, 83406331270155, 0]),
        liquidity: 4844714101140627498,
        tick: 197490,
    };

    let max_swap_x = pool_state.swap_limit_x(60);

    assert!(max_swap_x.is_ok(), "Failed to calculate max swap X: {:?}", max_swap_x.err());
}

#[test]
fn test_max_swap_y() {
    let pool_state = POOL_STATE_WBTC_USDC;

    let max_swap_y = pool_state.swap_limit_y(60).unwrap();
    let virtual_reserve_y = pool_state.virtual_reserve_y();

    println!("Max Swap Y: {:?}", max_swap_y);
    println!("Virtual Reserve Y: {:?}", virtual_reserve_y);

    assert!(
        value(&max_swap_y) < value(&virtual_reserve_y),
        "Max swap Y exceeds virtual reserve Y"
    );
}

#[test]
fn test_decimal_liquidity_check() {
    let pool_state = POOL_STATE_WBTC_USDC;

    let reserves_x: u128 = value(&pool_state.virtual_reserve_x());

    let reserves_y: u128 = value(&pool_state.virtual_reserve_y());

    let sqrt_price = evm::fixed_point::q_64_96_to_decimal(pool_state.sqrt_price_x96);
    let sqrt_price = rust_decimal::Decimal::from_i128_with_scale(sqrt_price.mantissa(), sqrt_price.scale());
    let liquidity_alt = (reserves_x * reserves_y).isqrt();
    println!("Liquidity: {}", pool_state.liquidity);
    println!("Liquidity alt: {}", liquidity_alt);
    let reserves_x_alt = rust_decimal::Decimal::from_i128_with_scale(liquidity_alt as i128, 0) / sqrt_price;
    let reserves_y_alt = rust_decimal::Decimal::from_i128_with_scale(liquidity_alt as i128, 0) * sqrt_price;

    println!("X: {} - {}", reserves_x, reserves_x_alt);
    println!("Y: {} - {}", reserves_y, reserves_y_alt);
}

#[test]
fn virtual_reserves_exact_values() {
    let pool_state = PoolState {
        sqrt_price_x96: U160::from_limbs([0, 1 << 32, 0]),
        liquidity: 1_000_000,
        tick: 0,
    };
    assert_eq!(value(&pool_state.virtual_reserve_x()), 1_000_000);
    assert_eq!(value(&pool_state.virtual_reserve_y()), 1_000_000);
    let zero_price = PoolState { sqrt_price_x96: U160::zero(), liquidity: 5, tick: 0 };
    assert_eq!(value(&zero_price.virtual_reserve_x()), 0);
    assert_eq!(value(&zero_price.virtual_reserve_y()), 0);
}

#[test]
fn swap_limits_at_price_one() {
    // At tick 0 with spacing 60 the range is [0, 60]: the price is at the
    // lower boundary, so nothing more of token 0 can come in.
    let pool_state = PoolState {
        sqrt_price_x96: U160::from_limbs([0, 1 << 32, 0]),
        liquidity: 1_000_000_000_000,
        tick: 0,
    };
    assert_eq!(value(&pool_state.swap_limit_x(60).unwrap()), 0);
    let limit_y = value(&pool_state.swap_limit_y(60).unwrap());
    assert!(limit_y > 0 && limit_y < 1_000_000_000_000);
}

#[test]
fn swap_limit_x_underflows_below_range() {
    // A price below the lower boundary of its tick's range.
    let pool_state = PoolState {
        sqrt_price_x96: U160::from_limbs([0, 1 << 31, 0]),
        liquidity: 1_000_000,
        tick: 0,
    };
    match pool_state.swap_limit_x(60) {
        Err(PoolStateError::SwapLimitUnderflow(bound, current)) => {
            assert!(value(&bound) < value(&current));
        }
        other => panic!("unexpected {:?}", other),
    }
}

#[test]
fn swap_limits_reject_out_of_range_ticks() {
    let pool_state = PoolState {
        sqrt_price_x96: U160::from_limbs([0, 1 << 32, 0]),
        liquidity: 1,
        tick: 887273,
    };
    assert_eq!(
        pool_state.swap_limit_x(60),
        Err(PoolStateError::Tick(TickError::TickOutOfBounds(887273)))
    );
    assert_eq!(
        pool_state.swap_limit_y(60),
        Err(PoolStateError::Tick(TickError::TickOutOfBounds(887273)))
    );
}
