use walletfetch::config::{collect_networks, parse_chain_id, NetworkEntry};
use walletfetch::network::TokenSpec;

fn entry(key: &str, name: &str) -> NetworkEntry {
    NetworkEntry {
        key: key.to_string(),
        name: name.to_string(),
        rpc_url: format!("https://{}.example", name),
        tokens: vec![],
    }
}

#[test]
fn chain_ids() {
    assert_eq!(parse_chain_id("1"), Some(1));
    assert_eq!(parse_chain_id("42161"), Some(42161));
    assert_eq!(parse_chain_id("+7"), Some(7));
    assert_eq!(parse_chain_id("18446744073709551615"), Some(u64::MAX));
    assert_eq!(parse_chain_id("18446744073709551616"), None);
    assert_eq!(parse_chain_id(""), None);
    assert_eq!(parse_chain_id("+"), None);
    assert_eq!(parse_chain_id("mainnet"), None);
    assert_eq!(parse_chain_id("-1"), None);
}

#[test]
fn entries_become_networks() {
    let mut first = entry("1", "mainnet");
    first.tokens.push(TokenSpec {
        symbol: "USDC".to_string(),
        contract: "0xA0b86991c6218b36c1d19D4a2e9Eb0cE3606eB48".to_string(),
        decimals: 6,
    });
    let nets = collect_networks(vec![first, entry("base", "skipped"), entry("8453", "base")]);
    assert_eq!(nets.len(), 2);
    assert_eq!(nets[0].chain_id, 1);
    assert_eq!(nets[0].name, "mainnet");
    assert_eq!(nets[0].tokens.len(), 1);
    assert_eq!(nets[1].chain_id, 8453);
    assert_eq!(nets[1].rpc_url, "https://base.example");
}

#[test]
fn later_entry_for_a_chain_replaces_earlier() {
    let nets = collect_networks(vec![entry("1", "a"), entry("10", "b"), entry("01", "c")]);
    assert_eq!(nets.len(), 2);
    assert_eq!(nets[0].chain_id, 1);
    assert_eq!(nets[0].name, "c");
    assert_eq!(nets[1].name, "b");
    assert!(collect_networks(vec![]).is_empty());
}
