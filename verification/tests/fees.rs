use evm::blockchain::{chain_selector, Blockchain};
use evm::chainlink::{self, BridgeSource, BridgeTarget, BridgeTargetError};
use evm::decimal::Decimal;
use evm::hub_pools::{Bridge, PoolId as HubPoolId, TokensConnectionType};
use evm::graph::TokenAdjacency;
use evm::hub_tokens::TokenId;
use evm::pancakeswap_v3;
use evm::pool_id::PoolId;
use evm::primitives::{Address, TokenAddress};
use evm::uniswap_v3;

fn rust_decimal(d: &Decimal) -> rust_decimal::Decimal {
    rust_decimal::Decimal::from_i128_with_scale(d.mantissa(), d.scale())
}

fn dec(s: &str) -> rust_decimal::Decimal {
    s.parse().unwrap()
}

#[test]
fn uniswap_v3_fee_tiers_round_trip() {
    for fee in [uniswap_v3::Fee::Lowest, uniswap_v3::Fee::Low, uniswap_v3::Fee::Medium, uniswap_v3::Fee::High] {
        assert_eq!(uniswap_v3::fee_from_int(fee.value() as u16), Ok(fee));
    }
    assert_eq!(uniswap_v3::fee_from_int(2500), Err(uniswap_v3::FeeError::InvalidFeeAmount(2500)));
}

#[test]
fn uniswap_v3_fee_tiers() {
    assert_eq!(uniswap_v3::Fee::Medium.tick_spacing(), 60);
    assert_eq!(uniswap_v3::Fee::High.tick_spacing(), 200);
    assert_eq!(rust_decimal(&uniswap_v3::Fee::Medium.fee_amount()), dec("0.003"));
    assert_eq!(rust_decimal(&uniswap_v3::Fee::Low.fee_multiplier()), dec("0.9995"));
}

#[test]
fn pancakeswap_fee_tiers_round_trip() {
    for fee in [pancakeswap_v3::Fee::Lowest, pancakeswap_v3::Fee::Low, pancakeswap_v3::Fee::Medium, pancakeswap_v3::Fee::High] {
        assert_eq!(pancakeswap_v3::fee_from_int(fee.value()), Ok(fee));
    }
    assert_eq!(pancakeswap_v3::fee_from_int(3000), Err(pancakeswap_v3::FeeError::InvalidFeeAmount(3000)));
    assert_eq!(pancakeswap_v3::Fee::Medium.tick_spacing(), 50);
    assert_eq!(rust_decimal(&pancakeswap_v3::Fee::Medium.fee_multiplier()), dec("0.9975"));
}

#[test]
fn decimals_compare_by_value() {
    assert_eq!(Decimal::from_i128_with_scale(1500, 3), Decimal::new(15, 1));
    assert_ne!(Decimal::from_u64(2), Decimal::new(15, 1));
    assert_eq!(Decimal::from_i128_with_scale(-7, 0).mantissa(), -7);
    assert_eq!(Decimal::new(123, 2).scale(), 2);
}

fn address(n: u64) -> Address {
    Address { hi: 0, mid: 0, lo: n }
}

#[test]
fn hub_bridge_from_a_chainlink_bridge() {
    let mut remote_token = vec![0u8; 32];
    remote_token[31] = 44;
    let source = BridgeSource { address: address(9), local_token_address: address(1), local_blockchain: Blockchain::Ethereum };
    let bridge = chainlink::Bridge { source, target: BridgeTarget { chain_selector: chain_selector(Blockchain::BSC), remote_token } };
    let hub = Bridge::try_from_chainlink(&bridge).unwrap();
    assert_eq!(hub, Bridge::Evm(source, TokenId::Evm(TokenAddress(address(44), Blockchain::BSC))));
    assert_eq!(hub.id(), TokensConnectionType::Bridge(chainlink::PoolAddress(address(9), Blockchain::Ethereum)));
    let bad = chainlink::Bridge { source, target: BridgeTarget { chain_selector: 7, remote_token: vec![] } };
    assert_eq!(Bridge::try_from_chainlink(&bad), Err(BridgeTargetError::UnknownChainSelector(7)));
}

#[test]
fn pool_ids_name_their_blockchain() {
    let id = PoolId::UniswapV3(uniswap_v3::PoolAddress(address(1), Blockchain::Arbitrum));
    assert_eq!(id.blockchain(), Blockchain::Arbitrum);
    let pool = uniswap_v3::Pool {
        address: uniswap_v3::PoolAddress(address(1), Blockchain::Arbitrum),
        info: uniswap_v3::PoolInfo {
            fee: uniswap_v3::Fee::Low,
            token0: TokenAddress(address(2), Blockchain::Arbitrum),
            token1: TokenAddress(address(3), Blockchain::Arbitrum),
        },
    };
    assert_eq!(pool.id(), TokensConnectionType::Swap(HubPoolId::Evm(id)));
}
