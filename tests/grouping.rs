use walletfetch::amount::{Amount, BigNat};
use walletfetch::fetch::BalanceResult;
use walletfetch::report::{aggregate, balance_line, ReportEntry};

fn native(net: &str, raw: u128) -> BalanceResult {
    BalanceResult::Native { network_name: net.to_string(), amount: Amount { raw: BigNat::from_u128(raw), decimals: 18 } }
}

fn token(net: &str, symbol: &str, raw: u128) -> BalanceResult {
    BalanceResult::Token {
        network_name: net.to_string(),
        symbol: symbol.to_string(),
        amount: Amount { raw: BigNat::from_u128(raw), decimals: 6 },
    }
}

#[test]
fn same_network_collapses_into_one_entry() {
    let r = aggregate(&vec![native("Mainnet", 1_000_000_000_000_000_000), token("Mainnet", "USDC", 1_000_000)]);
    assert_eq!(
        r,
        vec![ReportEntry {
            network: "Mainnet".to_string(),
            lines: vec!["1.0 ETH".to_string(), "1.0 USDC".to_string()],
        }]
    );
}

#[test]
fn native_line_comes_first() {
    let r = aggregate(&vec![
        token("Base", "USDC", 2_500_000),
        native("Mainnet", 0),
        native("Base", 500_000_000_000_000_000),
    ]);
    assert_eq!(r.len(), 2);
    assert_eq!(r[0].network, "Base");
    assert_eq!(r[0].lines, vec!["0.5 ETH".to_string(), "2.5 USDC".to_string()]);
    assert_eq!(r[1].network, "Mainnet");
    assert_eq!(r[1].lines, vec!["0.0 ETH".to_string()]);
}

#[test]
fn no_balances_no_entries() {
    assert!(aggregate(&vec![]).is_empty());
}

#[test]
fn balance_lines() {
    assert_eq!(balance_line(&token("Base", "DAI", 1)), "0.000001 DAI");
    assert_eq!(balance_line(&native("Base", 10)), "0.00000000000000001 ETH");
}

#[test]
fn network_order_does_not_depend_on_arrival() {
    let a = vec![native("Mainnet", 1), native("Arbitrum", 2), token("Base", "USDC", 3)];
    let b = vec![token("Base", "USDC", 3), native("Mainnet", 1), native("Arbitrum", 2)];
    let ra = aggregate(&a);
    assert_eq!(ra, aggregate(&b));
    let names: Vec<&str> = ra.iter().map(|e| e.network.as_str()).collect();
    assert_eq!(names, vec!["Arbitrum", "Base", "Mainnet"]);
}

#[test]
fn names_order_by_character_code() {
    let r = aggregate(&vec![native("b", 1), native("B", 1), native("ab", 1), native("a", 1)]);
    let names: Vec<&str> = r.iter().map(|e| e.network.as_str()).collect();
    assert_eq!(names, vec!["B", "a", "ab", "b"]);
}
