use walletfetch::amount::{Amount, BigNat};
use walletfetch::fetch::{
    balance_of_call_data, collect_balances, decode_outcome, plan_fetches, Asset, BalanceResult,
    FetchUnit, UnitOutcome,
};
use walletfetch::network::{Network, TokenSpec};
use walletfetch::rpc::{rpc_result, HttpReply, Reply, RpcError, RpcParam};

const ADDR: &str = "0xAbCdEf0123456789aBcDeF0123456789ABCDEF01";

fn network(chain_id: u64, name: &str, tokens: Vec<TokenSpec>) -> Network {
    Network {
        chain_id,
        name: name.to_string(),
        rpc_url: format!("https://{}.example", name.to_lowercase()),
        tokens,
    }
}

fn usdc() -> TokenSpec {
    TokenSpec {
        symbol: "USDC".to_string(),
        contract: "0xA0b86991c6218b36c1d19D4a2e9Eb0cE3606eB48".to_string(),
        decimals: 6,
    }
}

fn ok_body(result: &str) -> Reply {
    Reply::Received(HttpReply {
        status: 200,
        body: format!("{{\"jsonrpc\":\"2.0\",\"id\":1,\"result\":\"{}\"}}", result),
    })
}

fn native_unit(name: &str) -> FetchUnit {
    plan_fetches(ADDR, &vec![network(1, name, vec![])]).remove(0)
}

#[test]
fn balance_of_data_pads_and_lowercases() {
    assert_eq!(
        balance_of_call_data(ADDR),
        "0x70a08231000000000000000000000000abcdef0123456789abcdef0123456789abcdef01"
    );
    assert_eq!(
        balance_of_call_data("1234"),
        "0x70a082310000000000000000000000001234"
    );
}

#[test]
fn plan_has_one_unit_per_network_and_token() {
    let nets = vec![network(1, "Mainnet", vec![usdc()]), network(8453, "Base", vec![])];
    let units = plan_fetches(ADDR, &nets);
    assert_eq!(units.len(), 3);
    assert_eq!(units[0].network_name, "Mainnet");
    assert_eq!(units[0].endpoint, "https://mainnet.example");
    assert_eq!(units[0].asset, Asset::Native);
    assert_eq!(units[0].call.method, "eth_getBalance");
    assert_eq!(
        units[0].call.params,
        vec![RpcParam::Text(ADDR.to_string()), RpcParam::Text("latest".to_string())]
    );
    assert_eq!(units[1].asset, Asset::Token { symbol: "USDC".to_string(), decimals: 6 });
    assert_eq!(units[1].call.method, "eth_call");
    assert_eq!(
        units[1].call.params,
        vec![
            RpcParam::Call {
                to: "0xA0b86991c6218b36c1d19D4a2e9Eb0cE3606eB48".to_string(),
                data: balance_of_call_data(ADDR),
            },
            RpcParam::Text("latest".to_string()),
        ]
    );
    assert_eq!(units[2].network_name, "Base");
    assert_eq!(units[2].asset, Asset::Native);
    assert!(plan_fetches(ADDR, &vec![]).is_empty());
}

#[test]
fn native_reply_decodes_to_one_coin() {
    let o = UnitOutcome { unit: native_unit("Mainnet"), reply: ok_body("0x0de0b6b3a7640000") };
    assert_eq!(
        decode_outcome(&o),
        Ok(BalanceResult::Native {
            network_name: "Mainnet".to_string(),
            amount: Amount { raw: BigNat::from_u128(1_000_000_000_000_000_000), decimals: 18 },
        })
    );
}

#[test]
fn token_reply_decodes_with_token_decimals() {
    let unit = plan_fetches(ADDR, &vec![network(1, "Mainnet", vec![usdc()])]).remove(1);
    let o = UnitOutcome { unit, reply: ok_body("0x0f4240") };
    assert_eq!(
        decode_outcome(&o),
        Ok(BalanceResult::Token {
            network_name: "Mainnet".to_string(),
            symbol: "USDC".to_string(),
            amount: Amount { raw: BigNat::from_u128(1_000_000), decimals: 6 },
        })
    );
}

#[test]
fn one_failing_endpoint_of_three() {
    let outcomes = vec![
        UnitOutcome { unit: native_unit("Mainnet"), reply: ok_body("0x1") },
        UnitOutcome {
            unit: native_unit("Arbitrum"),
            reply: Reply::Received(HttpReply { status: 500, body: "oops".to_string() }),
        },
        UnitOutcome { unit: native_unit("Base"), reply: ok_body("0x2") },
    ];
    let report = collect_balances(&outcomes);
    assert_eq!(report.balances.len(), 2);
    assert_eq!(
        report.balances[0],
        BalanceResult::Native {
            network_name: "Mainnet".to_string(),
            amount: Amount { raw: BigNat::from_u128(1), decimals: 18 },
        }
    );
    assert_eq!(
        report.balances[1],
        BalanceResult::Native {
            network_name: "Base".to_string(),
            amount: Amount { raw: BigNat::from_u128(2), decimals: 18 },
        }
    );
    assert_eq!(report.failures.len(), 1);
    assert_eq!(report.failures[0].network_name, "Arbitrum");
    assert_eq!(
        report.failures[0].error,
        RpcError::Transport { status: 500, body: "oops".to_string() }
    );
}

#[test]
fn all_failing_is_an_empty_report() {
    let outcomes = vec![UnitOutcome {
        unit: native_unit("Mainnet"),
        reply: Reply::NoResponse("deadline passed".to_string()),
    }];
    let report = collect_balances(&outcomes);
    assert!(report.balances.is_empty());
    assert_eq!(
        report.failures[0].error,
        RpcError::Unreachable { reason: "deadline passed".to_string() }
    );
    assert!(collect_balances(&vec![]).balances.is_empty());
}

#[test]
fn reply_errors() {
    let bad_json = Reply::Received(HttpReply { status: 200, body: "not json".to_string() });
    assert_eq!(rpc_result(&bad_json), Err(RpcError::Decode));
    let rpc_error = Reply::Received(HttpReply {
        status: 200,
        body: "{\"jsonrpc\":\"2.0\",\"id\":1,\"error\":{\"code\":-32000,\"message\":\"x\"}}"
            .to_string(),
    });
    assert_eq!(rpc_result(&rpc_error), Err(RpcError::Decode));
    let number = Reply::Received(HttpReply { status: 200, body: "{\"result\":5}".to_string() });
    assert_eq!(rpc_result(&number), Err(RpcError::Decode));
    assert_eq!(rpc_result(&ok_body("0xabc")), Ok("0xabc".to_string()));
    let moved = Reply::Received(HttpReply { status: 301, body: "".to_string() });
    assert_eq!(rpc_result(&moved), Err(RpcError::Transport { status: 301, body: "".to_string() }));
}

#[test]
fn unreadable_result_is_a_decode_failure() {
    let o = UnitOutcome { unit: native_unit("Mainnet"), reply: ok_body("0xzz") };
    let f = decode_outcome(&o).unwrap_err();
    assert_eq!(f.network_name, "Mainnet");
    assert_eq!(f.asset, Asset::Native);
    assert_eq!(f.error, RpcError::Decode);
}

#[test]
fn native_balance_beyond_128_bits() {
    let big = format!("0x1{}", "0".repeat(32));
    let o = UnitOutcome { unit: native_unit("Mainnet"), reply: ok_body(&big) };
    match decode_outcome(&o) {
        Ok(BalanceResult::Native { network_name, amount }) => {
            assert_eq!(network_name, "Mainnet");
            assert_eq!(amount.to_decimal_string(), "340282366920938463463.374607431768211456");
        }
        other => panic!("unexpected {:?}", other),
    }
}

#[test]
fn request_bodies_are_json_rpc_envelopes() {
    let units = plan_fetches("0xab", &vec![network(1, "Mainnet", vec![usdc()])]);
    assert_eq!(
        walletfetch::rpc::request_body(&units[0].call),
        "{\"jsonrpc\":\"2.0\",\"method\":\"eth_getBalance\",\"params\":[\"0xab\",\"latest\"],\"id\":1}"
    );
    assert_eq!(
        walletfetch::rpc::request_body(&units[1].call),
        format!(
            "{{\"jsonrpc\":\"2.0\",\"method\":\"eth_call\",\"params\":[{{\"to\":\"0xA0b86991c6218b36c1d19D4a2e9Eb0cE3606eB48\",\"data\":\"{}\"}},\"latest\"],\"id\":1}}",
            balance_of_call_data("0xab")
        )
    );
    let quoted = walletfetch::rpc::RpcCall {
        method: "say \"hi\"\n".to_string(),
        params: vec![],
    };
    assert_eq!(
        walletfetch::rpc::request_body(&quoted),
        "{\"jsonrpc\":\"2.0\",\"method\":\"say \\\"hi\\\"\\n\",\"params\":[],\"id\":1}"
    );
}
