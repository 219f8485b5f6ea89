use walletfetch::hexfmt::append_hex;
use walletfetch::namehash::namehash;
use walletfetch::network::Network;
use walletfetch::resolve::{
    advance_resolution, decode_word_address, start_resolution, Lookup, ResolveError, ResolveStep,
    Stage, REGISTRY_ADDRESS,
};
use walletfetch::rpc::{HttpReply, Reply, RpcError, RpcParam};

fn mainnet() -> Network {
    Network {
        chain_id: 1,
        name: "Mainnet".to_string(),
        rpc_url: "https://eth.example".to_string(),
        tokens: vec![],
    }
}

fn base() -> Network {
    Network {
        chain_id: 8453,
        name: "Base".to_string(),
        rpc_url: "https://base.example".to_string(),
        tokens: vec![],
    }
}

fn word(addr_hex40: &str) -> Reply {
    Reply::Received(HttpReply {
        status: 200,
        body: format!("{{\"result\":\"0x{}{}\"}}", "0".repeat(24), addr_hex40),
    })
}

fn node_hex(name: &str) -> String {
    let mut s = String::new();
    append_hex(&mut s, &namehash(name));
    s
}

fn first_lookup() -> Lookup {
    match start_resolution("vitalik.eth", &vec![base(), mainnet()]) {
        ResolveStep::Query { next, .. } => next,
        other => panic!("unexpected {:?}", other),
    }
}

#[test]
fn short_literal_is_rejected() {
    assert_eq!(
        start_resolution("0x1234", &vec![mainnet()]),
        ResolveStep::Finished(Err(ResolveError::InvalidAddressFormat))
    );
    assert_eq!(
        start_resolution("1234567890123456789012345678901234567890ab", &vec![]),
        ResolveStep::Finished(Err(ResolveError::InvalidAddressFormat))
    );
}

#[test]
fn well_formed_literal_passes_unchanged() {
    let a = "0xAbCdEf0123456789aBcDeF0123456789ABCDEF01";
    assert_eq!(start_resolution(a, &vec![]), ResolveStep::Finished(Ok(a.to_string())));
}

#[test]
fn name_without_registry_chain_is_unavailable() {
    assert_eq!(
        start_resolution("vitalik.eth", &vec![base()]),
        ResolveStep::Finished(Err(ResolveError::ResolutionUnavailable))
    );
}

#[test]
fn name_starts_with_registry_query() {
    match start_resolution("vitalik.eth", &vec![base(), mainnet()]) {
        ResolveStep::Query { next, call } => {
            assert_eq!(next.name, "vitalik.eth");
            assert_eq!(next.endpoint, "https://eth.example");
            assert_eq!(next.node, namehash("vitalik.eth"));
            assert_eq!(next.stage, Stage::FindResolver);
            assert_eq!(call.method, "eth_call");
            assert_eq!(
                call.params,
                vec![
                    RpcParam::Call {
                        to: REGISTRY_ADDRESS.to_string(),
                        data: format!("0x0178b8bf{}", node_hex("vitalik.eth")),
                    },
                    RpcParam::Text("latest".to_string()),
                ]
            );
        }
        other => panic!("unexpected {:?}", other),
    }
}

#[test]
fn zero_resolver_stops_resolution() {
    let step = advance_resolution(first_lookup(), &word(&"0".repeat(40)));
    assert_eq!(
        step,
        ResolveStep::Finished(Err(ResolveError::NoResolverFound { name: "vitalik.eth".to_string() }))
    );
}

#[test]
fn resolver_then_address() {
    let resolver = "231b0ee14048e9dccd1d247744d114a4eb5e8e63";
    let step = advance_resolution(first_lookup(), &word(&resolver.to_uppercase()));
    let next = match step {
        ResolveStep::Query { next, call } => {
            assert_eq!(next.stage, Stage::FindAddress);
            assert_eq!(next.endpoint, "https://eth.example");
            assert_eq!(
                call.params[0],
                RpcParam::Call {
                    to: format!("0x{}", resolver),
                    data: format!("0x3b3b57de{}", node_hex("vitalik.eth")),
                }
            );
            next
        }
        other => panic!("unexpected {:?}", other),
    };
    let target = "d8da6bf26964af9d7eed9e03e53415d37aa96045";
    assert_eq!(
        advance_resolution(next, &word(target)),
        ResolveStep::Finished(Ok(format!("0x{}", target)))
    );
}

#[test]
fn zero_address_from_resolver() {
    let mut lookup = first_lookup();
    lookup.stage = Stage::FindAddress;
    assert_eq!(
        advance_resolution(lookup, &word(&"0".repeat(40))),
        ResolveStep::Finished(Err(ResolveError::NoAddressFound { name: "vitalik.eth".to_string() }))
    );
}

#[test]
fn failed_lookup_calls() {
    let down = Reply::Received(HttpReply { status: 502, body: "bad gateway".to_string() });
    assert_eq!(
        advance_resolution(first_lookup(), &down),
        ResolveStep::Finished(Err(ResolveError::Rpc(RpcError::Transport {
            status: 502,
            body: "bad gateway".to_string()
        })))
    );
    let empty = Reply::Received(HttpReply { status: 200, body: "{\"result\":\"0x\"}".to_string() });
    assert_eq!(
        advance_resolution(first_lookup(), &empty),
        ResolveStep::Finished(Err(ResolveError::Rpc(RpcError::Decode)))
    );
}

#[test]
fn word_addresses() {
    assert_eq!(
        decode_word_address(&format!("0x{}{}", "0".repeat(24), "AB".repeat(20))),
        Some(format!("0x{}", "ab".repeat(20)))
    );
    assert_eq!(decode_word_address("0x1234"), None);
    assert_eq!(decode_word_address(&format!("0x{}", "g".repeat(64))), None);
}
