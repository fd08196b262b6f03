use alloy::primitives::{keccak256, Address as AAddress, Bytes, U256 as AU256};
use alloy::sol_types::SolValue;
use evm::blockchain::{chain_selector, Blockchain, Ethereum};
use evm::chainlink::{assemble_bridges, remote_chain_selectors, remote_token_requests, BridgeTarget, BridgeTargetError, GetConfiguredTokensCallData, GetPoolsCallData, PoolAddress as ChainlinkPool, RemoteTokensMulticallData, RemoteTokenErrorKind};
use evm::hub_pools::decode_bridge_target;
use evm::hub_tokens::TokenId;
use evm::multicall::{aggregate_call_data, decode_multicall_results, multicall3_address, multicall_calls, split_results};
use evm::pool_reserves_calls::ReservesCallData;
use evm::primitives::{Address, TokenAddress, TokenInfo};
use evm::reserves::{Call, DecodeErrorKind};
use evm::router::{Swap, SwapPath};
use evm::uniswap_v2;
use evm::uniswap_v3::{self, Fee, PoolStateCallData};

fn address(n: u64) -> Address {
    Address { hi: 0, mid: 0, lo: n }
}

fn address_bytes(a: Address) -> Vec<u8> {
    let mut b = a.hi.to_be_bytes().to_vec();
    b.extend_from_slice(&a.mid.to_be_bytes());
    b.extend_from_slice(&a.lo.to_be_bytes());
    b
}

fn alloy_address(a: Address) -> AAddress {
    AAddress::from_slice(&address_bytes(a))
}

fn selector(signature: &str) -> Vec<u8> {
    keccak256(signature.as_bytes())[..4].to_vec()
}

fn token(n: u64, decimals: u32) -> TokenInfo {
    TokenInfo { address: TokenAddress(address(n), Blockchain::Ethereum), decimals }
}

fn rust_decimal(d: &evm::decimal::Decimal) -> rust_decimal::Decimal {
    rust_decimal::Decimal::from_i128_with_scale(d.mantissa(), d.scale())
}

fn dec(s: &str) -> rust_decimal::Decimal {
    s.parse().unwrap()
}

#[test]
fn v2_reserves_are_read_with_token_decimals() {
    let data = uniswap_v2::ReservesCallData::<Ethereum>::new(address(1), &token(10, 18), &token(11, 6));
    let response = vec![(AU256::from(2_500_000_000_000_000_000u128), AU256::from(3_000_000u64), AU256::from(7u64)).abi_encode()];
    assert!(data.decode_defined_check(&response));
    let (pool, reserves) = data.decode_output(&response).unwrap();
    assert_eq!(pool, uniswap_v2::PoolAddress(address(1), Blockchain::Ethereum));
    assert_eq!(rust_decimal(&reserves.token0), dec("2.5"));
    assert_eq!(rust_decimal(&reserves.token1), dec("3"));
    assert_eq!(rust_decimal(&reserves.max_swap0), dec("2.5"));
    assert_eq!(rust_decimal(&reserves.fee_multiplier), dec("0.997"));
}

#[test]
fn v2_reserves_decode_errors() {
    let data = uniswap_v2::ReservesCallData::<Ethereum>::new(address(1), &token(10, 18), &token(11, 6));
    let e = data.decode_output(&[]).unwrap_err();
    assert_eq!(e.kind, DecodeErrorKind::MissingData(0));
    let e = data.decode_output(&[vec![0u8; 96], vec![0u8; 96]]).unwrap_err();
    assert_eq!(e.kind, DecodeErrorKind::InvalidResponseSize(2));
    let e = data.decode_output(&[vec![0u8; 64]]).unwrap_err();
    assert_eq!(e.kind, DecodeErrorKind::DecodeFailed(0));
}

#[test]
fn v2_calls_get_reserves() {
    let data = uniswap_v2::ReservesCallData::<Ethereum>::new(address(1), &token(10, 18), &token(11, 6));
    let calls = data.to_calls();
    assert_eq!(calls.len(), 1);
    assert_eq!(calls[0].target, address(1));
    assert_eq!(calls[0].call_data, selector("getReserves()"));
}

fn slot0_words(sqrt_price: AU256, tick_word: AU256) -> Vec<u8> {
    (sqrt_price, tick_word, AU256::from(3u64), AU256::from(4u64), AU256::from(5u64), AU256::from(6u64), AU256::from(1u64)).abi_encode()
}

#[test]
fn v3_reserves_at_price_one() {
    let data = uniswap_v3::ReservesCallData::<Ethereum>::new(address(2), &token(10, 18), &token(11, 18), Fee::Medium);
    let response = vec![slot0_words(AU256::from(1u128) << 96, AU256::ZERO), AU256::from(1_000_000_000_000_000_000u128).abi_encode()];
    assert!(data.decode_defined_check(&response));
    let (pool, reserves) = data.decode_output(&response).unwrap();
    assert_eq!(pool, uniswap_v3::PoolAddress(address(2), Blockchain::Ethereum));
    assert_eq!(rust_decimal(&reserves.token0), dec("1"));
    assert_eq!(rust_decimal(&reserves.token1), dec("1"));
    assert_eq!(rust_decimal(&reserves.fee_multiplier), dec("0.997"));
    // the price sits on the lower edge of its tick range [0, 60): no token0
    // can go in before the range is left, and token1 up to
    // L * (1.0001^30 - 1), about 0.0030044
    assert_eq!(rust_decimal(&reserves.max_swap0), dec("0"));
    assert!(rust_decimal(&reserves.max_swap1) > dec("0.0030043"));
    assert!(rust_decimal(&reserves.max_swap1) < dec("0.0030045"));
}

#[test]
fn v3_calls_read_slot0_and_liquidity() {
    let data = uniswap_v3::ReservesCallData::<Ethereum>::new(address(2), &token(10, 18), &token(11, 18), Fee::Low);
    let calls = data.to_calls();
    assert_eq!(calls[0].call_data, selector("slot0()"));
    assert_eq!(calls[1].call_data, selector("liquidity()"));
}

#[test]
fn slot0_is_decoded_word_by_word() {
    let call = PoolStateCallData::<Ethereum>::new(address(2));
    assert_eq!(call.contract_address(), address(2));
    assert_eq!(call.into_call_data(), selector("slot0()"));
    let minus_five = AU256::MAX - AU256::from(4u64);
    let response = slot0_words(AU256::from(12345u64), minus_five);
    let slot0 = call.decode_call_output(&response).unwrap();
    assert_eq!(slot0.sqrt_price_x96.as_limbs(), [12345, 0, 0]);
    assert_eq!(slot0.tick, -5);
    assert_eq!(slot0.observation_index, 3);
    assert_eq!(slot0.observation_cardinality, 4);
    assert_eq!(slot0.observation_cardinality_next, 5);
    assert_eq!(slot0.fee_protocol, 6);
    assert!(slot0.unlocked);
    assert!(call.decode_call_output(&response[..200]).is_err());
}

#[test]
fn swap_path_and_call_data_match_the_abi() {
    let t0 = TokenAddress(Address { hi: 0xc02aaa39, mid: 0xb223fe8d0a0e5c4f, lo: 0x27ead9083c756cc2 }, Blockchain::Ethereum);
    let t1 = TokenAddress(Address { hi: 0xa0b86991, mid: 0xc6218b36c1d19d4a, lo: 0x2e9eb0ce3606eb48 }, Blockchain::Ethereum);
    let swap = Swap {
        path: SwapPath { path: vec![(t0, Fee::Low)], output: t1 },
        amount: 1_000_000,
        recipient: address(77),
    };
    let mut expected_path = address_bytes(t0.0);
    expected_path.extend_from_slice(&[0x00, 0x01, 0xf4]);
    expected_path.extend_from_slice(&address_bytes(t1.0));
    assert_eq!(swap.path_bytes(), expected_path);

    let params = (Bytes::from(expected_path.clone()), alloy_address(address(77)), AU256::from(1_000_000u64), AU256::ZERO);
    let mut expected = selector("exactInput((bytes,address,uint256,uint256))");
    expected.extend((params,).abi_encode_params());
    assert_eq!(swap.into_transaction_data(), expected);
    assert!(swap.value().is_none());
    assert_eq!(address_bytes(swap.contract_address()), hex_bytes("68b3465833fb72a70ecdf485e0e4c7bd8665fc45"));
}

#[test]
fn swap_output_is_the_first_word() {
    let swap = Swap { path: SwapPath { path: vec![], output: TokenAddress(address(1), Blockchain::Ethereum) }, amount: 0, recipient: address(2) };
    let out = swap.decode_call_output(&AU256::from(987654321u64).abi_encode()).unwrap();
    assert_eq!(out.to_u128(), Some(987654321));
    assert!(swap.decode_call_output(&[0u8; 31]).is_err());
}

fn hex_bytes(s: &str) -> Vec<u8> {
    (0..s.len()).step_by(2).map(|i| u8::from_str_radix(&s[i..i + 2], 16).unwrap()).collect()
}

#[test]
fn multicall3_lives_at_the_same_address_everywhere() {
    let expected = hex_bytes("ca11bde05977b3631167028862be2a173976ca11");
    for b in [Blockchain::Ethereum, Blockchain::BSC, Blockchain::Arbitrum] {
        assert_eq!(address_bytes(multicall3_address(b)), expected);
    }
}

#[test]
fn aggregate_call_data_matches_the_abi() {
    let calls = vec![
        Call { target: address(1), call_data: vec![1, 2, 3, 4] },
        Call { target: address(2), call_data: selector("liquidity()") },
    ];
    let args: Vec<(AAddress, Bytes)> = calls.iter().map(|c| (alloy_address(c.target), Bytes::from(c.call_data.clone()))).collect();
    let mut expected = selector("aggregate((address,bytes)[])");
    expected.extend((args,).abi_encode_params());
    assert_eq!(aggregate_call_data(&calls), expected);
}

#[test]
fn aggregate_results_are_decoded() {
    let response = (AU256::from(5u64), vec![Bytes::from(vec![1u8, 2]), Bytes::from(vec![3u8])]).abi_encode_params();
    assert_eq!(decode_multicall_results(&response), Some(vec![vec![1, 2], vec![3]]));
    assert_eq!(decode_multicall_results(&[1u8, 2, 3]), None);
}

#[test]
fn batch_results_are_split_by_member() {
    let v2 = ReservesCallData::UniswapV2(uniswap_v2::ReservesCallData::<Ethereum>::new(address(1), &token(10, 18), &token(11, 6)));
    let v3 = ReservesCallData::UniswapV3(uniswap_v3::ReservesCallData::<Ethereum>::new(address(2), &token(10, 18), &token(11, 6), Fee::Medium));
    let batch = vec![v2, v3];
    let calls = multicall_calls(&batch);
    assert_eq!(calls.len(), 3);
    assert_eq!(calls[0].target, address(1));
    assert_eq!(calls[2].call_data, selector("liquidity()"));
    let results = vec![vec![1u8], vec![2u8], vec![3u8]];
    let parts = split_results(&batch, &results).unwrap();
    assert_eq!(parts, vec![vec![vec![1u8]], vec![vec![2u8], vec![3u8]]]);
    assert!(split_results(&batch, &results[..2]).is_none());
}

#[test]
fn configured_tokens_call_matches_the_abi() {
    let call = GetConfiguredTokensCallData::<Ethereum>::new(100, 50);
    let mut expected = selector("getAllConfiguredTokens(uint64,uint64)");
    expected.extend((100u64, 50u64).abi_encode_params());
    assert_eq!(call.into_call_data(), expected);
    let next = call.next();
    assert_eq!(next.start_index, 150);
    assert_eq!(next.max_count(), 50);
    let answer = (vec![alloy_address(address(5)), alloy_address(address(6))],).abi_encode_params();
    let tokens = call.decode_call_output(&answer).unwrap();
    assert_eq!(tokens, vec![TokenAddress(address(5), Blockchain::Ethereum), TokenAddress(address(6), Blockchain::Ethereum)]);
    assert!(call.decode_call_output(&[0u8; 10]).is_err());
}

#[test]
fn get_pools_call_matches_the_abi() {
    let tokens = vec![TokenAddress(address(5), Blockchain::Ethereum), TokenAddress(address(6), Blockchain::Ethereum)];
    let call = GetPoolsCallData::<Ethereum>::create(&tokens).unwrap();
    let mut expected = selector("getPools(address[])");
    expected.extend((vec![alloy_address(address(5)), alloy_address(address(6))],).abi_encode_params());
    assert_eq!(call.into_call_data(), expected);
    let answer = (vec![alloy_address(address(9)), AAddress::ZERO],).abi_encode_params();
    let pools = call.decode_call_output(&answer).unwrap();
    assert_eq!(pools, vec![Some(ChainlinkPool(address(9), Blockchain::Ethereum)), None]);
    let wrong = vec![TokenAddress(address(5), Blockchain::BSC)];
    assert!(GetPoolsCallData::<Ethereum>::create(&wrong).is_err());
}

#[test]
fn remote_token_answers() {
    let call = RemoteTokensMulticallData::<Ethereum>::new(ChainlinkPool(address(9), Blockchain::Ethereum), chain_selector(Blockchain::BSC));
    let token_bytes = alloy_address(address(44)).abi_encode();
    let answer = (Bytes::from(token_bytes.clone()),).abi_encode_params();
    assert_eq!(call.decode_output(&[answer]).unwrap(), Some((chain_selector(Blockchain::BSC), token_bytes)));
    let empty = (Bytes::new(),).abi_encode_params();
    assert_eq!(call.decode_output(&[empty]).unwrap(), None);
    assert_eq!(call.decode_output(&[]).unwrap_err().kind, RemoteTokenErrorKind::MissingData);
    assert_eq!(call.decode_output(&[vec![], vec![]]).unwrap_err().kind, RemoteTokenErrorKind::InvalidResponseSize);
    assert_eq!(call.decode_output(&[vec![1, 2, 3]]).unwrap_err().kind, RemoteTokenErrorKind::DecodeFailed);
}

#[test]
fn bridge_targets_are_read_per_chain_selector() {
    let target = BridgeTarget { chain_selector: chain_selector(Blockchain::Arbitrum), remote_token: alloy_address(address(44)).abi_encode() };
    assert_eq!(decode_bridge_target(&target), Ok(TokenId::Evm(TokenAddress(address(44), Blockchain::Arbitrum))));
    let unknown = BridgeTarget { chain_selector: 1, remote_token: vec![0; 32] };
    assert_eq!(decode_bridge_target(&unknown), Err(BridgeTargetError::UnknownChainSelector(1)));
    let short = BridgeTarget { chain_selector: chain_selector(Blockchain::BSC), remote_token: vec![0; 20] };
    assert_eq!(decode_bridge_target(&short), Err(BridgeTargetError::InvalidTokenAddress));
}

#[test]
fn bridge_target_of_an_encoded_address_decodes_to_it() {
    let a = Address { hi: 0xdead_beef, mid: 0x0123_4567_89ab_cdef, lo: 0xfedc_ba98_7654_3210 };
    for b in [Blockchain::Ethereum, Blockchain::BSC, Blockchain::Arbitrum] {
        let target = BridgeTarget { chain_selector: chain_selector(b), remote_token: alloy_address(a).abi_encode() };
        assert_eq!(decode_bridge_target(&target), Ok(TokenId::Evm(TokenAddress(a, b))));
    }
}

#[test]
fn bridges_pair_answers_with_their_requests() {
    let tokens = vec![TokenAddress(address(5), Blockchain::Ethereum), TokenAddress(address(6), Blockchain::Ethereum)];
    let pools = vec![Some(ChainlinkPool(address(9), Blockchain::Ethereum)), None];
    let all = [chain_selector(Blockchain::Ethereum), chain_selector(Blockchain::BSC), chain_selector(Blockchain::Arbitrum)];
    let selectors = remote_chain_selectors(&all, Blockchain::Ethereum);
    assert_eq!(selectors, vec![chain_selector(Blockchain::BSC), chain_selector(Blockchain::Arbitrum)]);
    let requests = remote_token_requests::<Ethereum>(&pools, &selectors);
    assert_eq!(requests.len(), 2);
    assert_eq!(requests[1].remote_chain_selector, chain_selector(Blockchain::Arbitrum));
    let remote = vec![Some((chain_selector(Blockchain::BSC), vec![1u8, 2])), None];
    let bridges = assemble_bridges(&remote, &tokens, &pools, &selectors).unwrap();
    assert_eq!(bridges.len(), 1);
    assert_eq!(bridges[0].source.address, address(9));
    assert_eq!(bridges[0].source.local_token_address, address(5));
    assert_eq!(bridges[0].target.chain_selector, chain_selector(Blockchain::BSC));
    assert_eq!(bridges[0].target.remote_token, vec![1u8, 2]);
    let wrong = vec![Some((chain_selector(Blockchain::Arbitrum), vec![1u8]))];
    assert!(assemble_bridges(&wrong, &tokens, &pools, &selectors).is_none());
}
