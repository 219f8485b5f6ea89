//! The balance fan-out: one unit of work per network for its native balance
//! and one per configured token, each an independent JSON-RPC call. The
//! calls run outside the library; their replies come back here and are
//! decoded one by one, so a failed unit never touches the others.
use vstd::prelude::*;
use crate::amount::{parse_hex_quantity, Amount};
use crate::hexfmt::{
    ascii_lower, has_0x_prefix, hex_quantity, lower_ascii_char, push_char,
};
use crate::network::{Network, TokenSpec};
use crate::rpc::{
    eth_call_request, is_eth_call, reply_reads_as, reply_result, rpc_result, text_param,
    text_param_is, Reply, RpcCall, RpcError, RpcParam,
};

verus! {

/// Decimal places of a native balance: one whole coin is 10^18 base units.
pub const NATIVE_DECIMALS: u8 = 18;

/// What one unit asks for.
#[derive(Clone, Debug, PartialEq, Eq)]
pub enum Asset {
    Native,
    Token { symbol: String, decimals: u8 },
}

/// One independent balance query: which network it is for, where to send
/// it, and the call itself.
#[derive(Clone, Debug, PartialEq, Eq)]
pub struct FetchUnit {
    pub network_name: String,
    pub endpoint: String,
    pub asset: Asset,
    pub call: RpcCall,
}

/// A balance that was read.
#[derive(Clone, Debug, PartialEq, Eq)]
pub enum BalanceResult {
    Native { network_name: String, amount: Amount },
    Token { network_name: String, symbol: String, amount: Amount },
}

/// A unit that gave no balance, and why.
#[derive(Clone, Debug, PartialEq, Eq)]
pub struct FetchFailure {
    pub network_name: String,
    pub asset: Asset,
    pub error: RpcError,
}

/// A unit together with what its endpoint answered.
#[derive(Clone, Debug, PartialEq, Eq)]
pub struct UnitOutcome {
    pub unit: FetchUnit,
    pub reply: Reply,
}

/// Everything the fan-out produced: the balances read, and the units that
/// failed, each in the order of the outcomes.
#[derive(Clone, Debug, PartialEq, Eq)]
pub struct FetchReport {
    pub balances: Vec<BalanceResult>,
    pub failures: Vec<FetchFailure>,
}

pub open spec fn strip_0x(s: Seq<char>) -> Seq<char> {
    if has_0x_prefix(s) {
        s.subrange(2, s.len() as int)
    } else {
        s
    }
}

/// Call data of `balanceOf(address)`: the selector `0x70a08231`, then the
/// address left-padded with 24 zero digits to one 32-byte word, in
/// lowercase hex.
pub open spec fn balance_of_data(address: Seq<char>) -> Seq<char> {
    "0x70a08231"@ + Seq::new(24, |i: int| '0') + strip_0x(address).map_values(
        |c: char| ascii_lower(c),
    )
}

/// `eth_getBalance` of `address` at the latest block.
pub open spec fn is_balance_call(c: RpcCall, address: Seq<char>) -> bool {
    &&& c.method@ == "eth_getBalance"@
    &&& c.params@.len() == 2
    &&& text_param_is(c.params@[0], address)
    &&& text_param_is(c.params@[1], "latest"@)
}

/// `eth_call` of `balanceOf(address)` on `contract` at the latest block.
pub open spec fn is_token_call(c: RpcCall, address: Seq<char>, contract: Seq<char>) -> bool {
    is_eth_call(c, contract, balance_of_data(address))
}

pub open spec fn is_native_unit(u: FetchUnit, address: Seq<char>, n: Network) -> bool {
    &&& u.network_name@ == n.name@
    &&& u.endpoint@ == n.rpc_url@
    &&& u.asset is Native
    &&& is_balance_call(u.call, address)
}

pub open spec fn is_token_unit(u: FetchUnit, address: Seq<char>, n: Network, t: TokenSpec) -> bool {
    &&& u.network_name@ == n.name@
    &&& u.endpoint@ == n.rpc_url@
    &&& u.asset matches Asset::Token { symbol, decimals } && symbol@ == t.symbol@ && decimals
        == t.decimals
    &&& is_token_call(u.call, address, t.contract@)
}

/// How many units the first `i` networks give: one each, plus one per token.
pub open spec fn units_before(nets: Seq<Network>, i: int) -> int
    decreases i,
{
    if i <= 0 {
        0
    } else {
        units_before(nets, i - 1) + 1 + nets[i - 1].tokens@.len()
    }
}

/// The plan: for each network in turn, its native unit, then one unit per
/// token in the order configured.
pub open spec fn is_plan(r: Seq<FetchUnit>, address: Seq<char>, nets: Seq<Network>) -> bool {
    &&& r.len() == units_before(nets, nets.len() as int)
    &&& forall|i: int|
        0 <= i < nets.len() ==> is_native_unit(
            #[trigger] r[units_before(nets, i)],
            address,
            nets[i],
        )
    &&& forall|i: int, j: int|
        0 <= i < nets.len() && 0 <= j < nets[i].tokens@.len() ==> #[trigger] is_token_unit(
            r[units_before(nets, i) + 1 + j],
            address,
            nets[i],
            nets[i].tokens@[j],
        )
}

/// The raw balance a reply carries: its `result` read as a hex quantity.
pub open spec fn reply_value(reply: Reply) -> Option<nat> {
    match reply_result(reply) {
        Some(t) => hex_quantity(t),
        None => None,
    }
}

pub open spec fn succeeded(o: UnitOutcome) -> bool {
    reply_value(o.reply) is Some
}

/// `b` is the balance that outcome `o` yields.
pub open spec fn balance_of_outcome(b: BalanceResult, o: UnitOutcome) -> bool {
    let v = reply_value(o.reply)->Some_0;
    match o.unit.asset {
        Asset::Native => b matches BalanceResult::Native { network_name, amount } && network_name@
            == o.unit.network_name@ && amount.raw.value() == v && amount.decimals == NATIVE_DECIMALS,
        Asset::Token { symbol: s, decimals: d } => b matches BalanceResult::Token {
            network_name,
            symbol,
            amount,
        } && network_name@ == o.unit.network_name@ && symbol@ == s@ && amount.raw.value() == v
            && amount.decimals == d,
    }
}

pub open spec fn same_asset(a: Asset, b: Asset) -> bool {
    match (a, b) {
        (Asset::Native, Asset::Native) => true,
        (Asset::Token { symbol: s1, decimals: d1 }, Asset::Token { symbol: s2, decimals: d2 }) =>
            s1@ == s2@ && d1 == d2,
        _ => false,
    }
}

/// `f` reports the failure of outcome `o`: the transport or decode error of
/// its reply, or `Decode` when the result is no hex quantity.
pub open spec fn failure_of_outcome(f: FetchFailure, o: UnitOutcome) -> bool {
    &&& f.network_name@ == o.unit.network_name@
    &&& same_asset(f.asset, o.unit.asset)
    &&& if reply_result(o.reply) is Some {
        f.error == RpcError::Decode
    } else {
        reply_reads_as(o.reply, Err(f.error))
    }
}

/// The outcomes that gave a balance, in order.
pub open spec fn ok_outcomes(s: Seq<UnitOutcome>) -> Seq<UnitOutcome>
    decreases s.len(),
{
    if s.len() == 0 {
        Seq::empty()
    } else if succeeded(s.last()) {
        ok_outcomes(s.drop_last()).push(s.last())
    } else {
        ok_outcomes(s.drop_last())
    }
}

/// The outcomes that gave none, in order.
pub open spec fn failed_outcomes(s: Seq<UnitOutcome>) -> Seq<UnitOutcome>
    decreases s.len(),
{
    if s.len() == 0 {
        Seq::empty()
    } else if succeeded(s.last()) {
        failed_outcomes(s.drop_last())
    } else {
        failed_outcomes(s.drop_last()).push(s.last())
    }
}

} // verus!

verus! {

/// Call data for `balanceOf(address)`: the selector, 24 zero digits, and the
/// address without its `0x` in lowercase.
pub fn balance_of_call_data(address: &str) -> (r: String)
    ensures
        r@ == balance_of_data(address@),
{
    let mut out = String::from_str("0x70a08231");
    let ghost head = out@;
    let mut i: usize = 0;
    while i < 24
        invariant
            0 <= i <= 24,
            head == "0x70a08231"@,
            out@ == head + Seq::new(i as nat, |k: int| '0'),
        decreases 24 - i,
    {
        push_char(&mut out, '0');
        i = i + 1;
        assert(out@ =~= head + Seq::new(i as nat, |k: int| '0'));
    }
    let ghost padded = out@;
    let n = address.unicode_len();
    let start: usize = if n >= 2 && address.get_char(0) == '0' && address.get_char(1) == 'x' {
        2
    } else {
        0
    };
    let ghost rest = strip_0x(address@);
    assert(rest =~= address@.subrange(start as int, n as int));
    let mut i: usize = start;
    while i < n
        invariant
            start <= i <= n,
            n == address@.len(),
            rest == address@.subrange(start as int, n as int),
            out@ == padded + rest.take(i - start).map_values(|c: char| ascii_lower(c)),
        decreases n - i,
    {
        let c = lower_ascii_char(address.get_char(i));
        push_char(&mut out, c);
        i = i + 1;
        assert(out@ =~= padded + rest.take(i - start).map_values(|c: char| ascii_lower(c)));
    }
    assert(rest.take(n - start) =~= rest);
    out
}

} // verus!

verus! {

fn native_unit(address: &str, n: &Network) -> (u: FetchUnit)
    ensures
        is_native_unit(u, address@, *n),
{
    let mut params: Vec<RpcParam> = Vec::new();
    params.push(text_param(address));
    params.push(text_param("latest"));
    FetchUnit {
        network_name: n.name.clone(),
        endpoint: n.rpc_url.clone(),
        asset: Asset::Native,
        call: RpcCall { method: String::from_str("eth_getBalance"), params },
    }
}

fn token_unit(address: &str, n: &Network, t: &TokenSpec) -> (u: FetchUnit)
    ensures
        is_token_unit(u, address@, *n, *t),
{
    FetchUnit {
        network_name: n.name.clone(),
        endpoint: n.rpc_url.clone(),
        asset: Asset::Token { symbol: t.symbol.clone(), decimals: t.decimals },
        call: eth_call_request(t.contract.clone(), balance_of_call_data(address)),
    }
}

/// Plans the fan-out for `address`: for each network in turn, one unit for
/// its native balance and then one per token, `|networks| + Σ|tokens|` in
/// all.
pub fn plan_fetches(address: &str, networks: &Vec<Network>) -> (r: Vec<FetchUnit>)
    ensures
        is_plan(r@, address@, networks@),
{
    let ghost nets = networks@;
    let mut r: Vec<FetchUnit> = Vec::new();
    let mut i: usize = 0;
    while i < networks.len()
        invariant
            0 <= i <= nets.len(),
            nets == networks@,
            r@.len() == units_before(nets, i as int),
            forall|a: int|
                0 <= a < i ==> is_native_unit(#[trigger] r@[units_before(nets, a)], address@, nets[a]),
            forall|a: int, b: int|
                0 <= a < i && 0 <= b < nets[a].tokens@.len() ==> #[trigger] is_token_unit(
                    r@[units_before(nets, a) + 1 + b],
                    address@,
                    nets[a],
                    nets[a].tokens@[b],
                ),
        decreases nets.len() - i,
    {
        let n = &networks[i];
        let ghost old_r = r@;
        r.push(native_unit(address, n));
        proof {
            assert forall|a: int, b: int|
                0 <= a < i && 0 <= b < nets[a].tokens@.len() implies #[trigger] is_token_unit(
                r@[units_before(nets, a) + 1 + b],
                address@,
                nets[a],
                nets[a].tokens@[b],
            ) by {
                lemma_unit_index(nets, a, i as int);
                assert(r@[units_before(nets, a) + 1 + b] == old_r[units_before(nets, a) + 1 + b]);
            }
            assert forall|a: int| 0 <= a <= i implies is_native_unit(
                #[trigger] r@[units_before(nets, a)],
                address@,
                nets[a],
            ) by {
                lemma_unit_index(nets, a, i as int);
                if a < i {
                    assert(r@[units_before(nets, a)] == old_r[units_before(nets, a)]);
                }
            }
        }
        let mut j: usize = 0;
        while j < n.tokens.len()
            invariant
                0 <= i < nets.len(),
                nets == networks@,
                *n == nets[i as int],
                0 <= j <= n.tokens@.len(),
                r@.len() == units_before(nets, i as int) + 1 + j,
                forall|a: int|
                    0 <= a <= i ==> is_native_unit(
                        #[trigger] r@[units_before(nets, a)],
                        address@,
                        nets[a],
                    ),
                forall|a: int, b: int|
                    (0 <= a < i && 0 <= b < nets[a].tokens@.len()) || (a == i && 0 <= b < j)
                        ==> #[trigger] is_token_unit(
                        r@[units_before(nets, a) + 1 + b],
                        address@,
                        nets[a],
                        nets[a].tokens@[b],
                    ),
            decreases n.tokens@.len() - j,
        {
            let ghost old_r = r@;
            r.push(token_unit(address, n, &n.tokens[j]));
            proof {
                assert forall|a: int, b: int|
                    (0 <= a < i && 0 <= b < nets[a].tokens@.len()) || (a == i && 0 <= b < j + 1)
                    implies #[trigger] is_token_unit(
                    r@[units_before(nets, a) + 1 + b],
                    address@,
                    nets[a],
                    nets[a].tokens@[b],
                ) by {
                    lemma_unit_index(nets, a, i as int);
                    if a < i || b < j {
                        assert(r@[units_before(nets, a) + 1 + b] == old_r[units_before(nets, a) + 1
                            + b]);
                    }
                }
                assert forall|a: int| 0 <= a <= i implies is_native_unit(
                    #[trigger] r@[units_before(nets, a)],
                    address@,
                    nets[a],
                ) by {
                    lemma_unit_index(nets, a, i as int);
                    assert(r@[units_before(nets, a)] == old_r[units_before(nets, a)]);
                }
            }
            j = j + 1;
        }
        i = i + 1;
    }
    r
}

proof fn lemma_unit_index(nets: Seq<Network>, a: int, i: int)
    requires
        0 <= a <= i <= nets.len(),
    ensures
        0 <= units_before(nets, a) <= units_before(nets, i),
        a < i ==> units_before(nets, a) + 1 + nets[a].tokens@.len() <= units_before(nets, i),
    decreases i,
{
    if a < i {
        lemma_unit_index(nets, a, i - 1);
    } else if a > 0 {
        lemma_unit_index(nets, a - 1, a - 1);
    }
}

} // verus!

verus! {

fn copy_asset(a: &Asset) -> (r: Asset)
    ensures
        same_asset(r, *a),
{
    match a {
        Asset::Native => Asset::Native,
        Asset::Token { symbol, decimals } => Asset::Token {
            symbol: symbol.clone(),
            decimals: *decimals,
        },
    }
}

/// Decodes what one unit's endpoint answered: the balance, or why there is
/// none. The result text is read as a hex quantity of base units.
pub fn decode_outcome(o: &UnitOutcome) -> (r: Result<BalanceResult, FetchFailure>)
    ensures
        match r {
            Ok(b) => succeeded(*o) && balance_of_outcome(b, *o),
            Err(f) => !succeeded(*o) && failure_of_outcome(f, *o),
        },
{
    let error = match rpc_result(&o.reply) {
        Ok(text) => match parse_hex_quantity(text.as_str()) {
            Some(raw) => {
                let network_name = o.unit.network_name.clone();
                return match &o.unit.asset {
                    Asset::Native => Ok(
                        BalanceResult::Native {
                            network_name,
                            amount: Amount { raw, decimals: NATIVE_DECIMALS },
                        },
                    ),
                    Asset::Token { symbol, decimals } => Ok(
                        BalanceResult::Token {
                            network_name,
                            symbol: symbol.clone(),
                            amount: Amount { raw, decimals: *decimals },
                        },
                    ),
                };
            },
            None => RpcError::Decode,
        },
        Err(e) => e,
    };
    Err(
        FetchFailure {
            network_name: o.unit.network_name.clone(),
            asset: copy_asset(&o.unit.asset),
            error,
        },
    )
}

/// Fan-in: the balance of every unit that gave one, and a failure for every
/// unit that did not, each list in the order of `outcomes`. One unit's
/// failure leaves the others' balances as they are; an empty result is no
/// error.
pub fn collect_balances(outcomes: &Vec<UnitOutcome>) -> (r: FetchReport)
    ensures
        r.balances@.len() == ok_outcomes(outcomes@).len(),
        forall|k: int|
            0 <= k < r.balances@.len() ==> #[trigger] balance_of_outcome(
                r.balances@[k],
                ok_outcomes(outcomes@)[k],
            ),
        r.failures@.len() == failed_outcomes(outcomes@).len(),
        forall|k: int|
            0 <= k < r.failures@.len() ==> #[trigger] failure_of_outcome(
                r.failures@[k],
                failed_outcomes(outcomes@)[k],
            ),
{
    let ghost s = outcomes@;
    let mut balances: Vec<BalanceResult> = Vec::new();
    let mut failures: Vec<FetchFailure> = Vec::new();
    let mut i: usize = 0;
    while i < outcomes.len()
        invariant
            0 <= i <= s.len(),
            s == outcomes@,
            balances@.len() == ok_outcomes(s.take(i as int)).len(),
            forall|k: int|
                0 <= k < balances@.len() ==> #[trigger] balance_of_outcome(
                    balances@[k],
                    ok_outcomes(s.take(i as int))[k],
                ),
            failures@.len() == failed_outcomes(s.take(i as int)).len(),
            forall|k: int|
                0 <= k < failures@.len() ==> #[trigger] failure_of_outcome(
                    failures@[k],
                    failed_outcomes(s.take(i as int))[k],
                ),
        decreases s.len() - i,
    {
        assert(s.take(i + 1).drop_last() =~= s.take(i as int));
        assert(s.take(i + 1).last() == s[i as int]);
        match decode_outcome(&outcomes[i]) {
            Ok(b) => balances.push(b),
            Err(f) => failures.push(f),
        }
        i = i + 1;
    }
    assert(s.take(s.len() as int) =~= s);
    FetchReport { balances, failures }
}

} // verus!

verus! {

/// Every unit is accounted for: it either gives a balance or is reported as
/// a failure, never both and never neither.
pub proof fn every_unit_accounted(s: Seq<UnitOutcome>)
    ensures
        ok_outcomes(s).len() + failed_outcomes(s).len() == s.len(),
    decreases s.len(),
{
    if s.len() > 0 {
        every_unit_accounted(s.drop_last());
    }
}

/// A failed unit is isolated: the balances read are exactly those read
/// without it, and it adds its own failure report and no other.
pub proof fn failure_is_isolated(s: Seq<UnitOutcome>, i: int)
    requires
        0 <= i < s.len(),
        !succeeded(s[i]),
    ensures
        ok_outcomes(s) == ok_outcomes(s.remove(i)),
        failed_outcomes(s).len() == failed_outcomes(s.remove(i)).len() + 1,
        failed_outcomes(s).contains(s[i]),
    decreases s.len(),
{
    if i == s.len() - 1 {
        assert(s.remove(i) =~= s.drop_last());
        assert(failed_outcomes(s).last() == s[i]);
    } else {
        let t = s.drop_last();
        failure_is_isolated(t, i);
        assert(s.remove(i).drop_last() =~= t.remove(i));
        assert(s.remove(i).last() == s.last());
        let k = choose|k: int| 0 <= k < failed_outcomes(t).len() && failed_outcomes(t)[k] == s[i];
        if !succeeded(s.last()) {
            assert(failed_outcomes(s)[k] == s[i]);
        }
    }
}

} // verus!
