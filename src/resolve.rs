//! Resolution of the target: a literal address is checked and passed on; a
//! dotted name is looked up on the registry chain in two steps, first its
//! resolver contract, then the address that the resolver holds. The calls
//! are made outside the library; this module decides what to ask next from
//! each reply.
use vstd::prelude::*;
use crate::hexfmt::{
    all_hex, append_hex, ascii_lower, has_0x_prefix, hex_text, is_hex_char, is_hex_digit,
    lower_ascii_char, push_char,
};
use crate::namehash::{name_node, namehash};
use crate::network::Network;
use crate::rpc::{
    eth_call_request, is_eth_call, reply_reads_as, reply_result, rpc_result, Reply, RpcCall,
    RpcError,
};

verus! {

/// Chain id of the network that holds the name registry.
pub const REGISTRY_CHAIN_ID: u64 = 1;

/// Address of the name registry contract on the registry chain.
pub const REGISTRY_ADDRESS: &'static str = "0x00000000000C2E074eC69A0dFb2997BA6C7d2e1e";

#[derive(Clone, Debug, PartialEq, Eq)]
pub enum ResolveError {
    /// Not a name, and not `0x` followed by 40 more characters.
    InvalidAddressFormat,
    /// No configured network is the registry chain.
    ResolutionUnavailable,
    NoResolverFound { name: String },
    NoAddressFound { name: String },
    Rpc(RpcError),
}

#[derive(Clone, Copy, Debug, PartialEq, Eq)]
pub enum Stage {
    /// Asking the registry for the name's resolver.
    FindResolver,
    /// Asking the resolver for the name's address.
    FindAddress,
}

/// A lookup in progress: the name, its namehash, the endpoint of the
/// registry chain, and which question is out.
#[derive(Clone, Debug, PartialEq, Eq)]
pub struct Lookup {
    pub name: String,
    pub endpoint: String,
    pub node: Vec<u8>,
    pub stage: Stage,
}

/// What to do next: send `call` to `next.endpoint` and hand the reply to
/// `advance_resolution`, or stop with the outcome.
#[derive(Debug, PartialEq, Eq)]
pub enum ResolveStep {
    Query { next: Lookup, call: RpcCall },
    Finished(Result<String, ResolveError>),
}

pub open spec fn is_address_literal(s: Seq<char>) -> bool {
    has_0x_prefix(s) && s.len() == 42
}

/// The address in a 32-byte return word: `0x` and 64 hex digits, of which
/// the last 40 are the address, given back in lowercase.
pub open spec fn word_address(t: Seq<char>) -> Option<Seq<char>> {
    if has_0x_prefix(t) && t.len() == 66 && all_hex(t.subrange(2, 66)) {
        Some(seq!['0', 'x'] + t.subrange(26, 66).map_values(|c: char| ascii_lower(c)))
    } else {
        None
    }
}

/// The address part of a return word is all zero digits.
pub open spec fn is_zero_word(t: Seq<char>) -> bool {
    forall|k: int| 26 <= k < 66 ==> t[k] == '0'
}

/// Call data of `resolver(bytes32)` on the namehash `node`.
pub open spec fn resolver_data(node: Seq<u8>) -> Seq<char> {
    "0x0178b8bf"@ + hex_text(node)
}

/// Call data of `addr(bytes32)` on the namehash `node`.
pub open spec fn addr_data(node: Seq<u8>) -> Seq<char> {
    "0x3b3b57de"@ + hex_text(node)
}

/// The first network of the registry chain, if any.
pub open spec fn registry_network(nets: Seq<Network>, k: int) -> bool {
    &&& 0 <= k < nets.len()
    &&& nets[k].chain_id == REGISTRY_CHAIN_ID
    &&& forall|j: int| 0 <= j < k ==> nets[j].chain_id != REGISTRY_CHAIN_ID
}

/// The first question about `name`, asked of the registry through `endpoint`.
pub open spec fn is_registry_query(r: ResolveStep, name: Seq<char>, endpoint: Seq<char>) -> bool {
    r matches ResolveStep::Query { next, call } && next.name@ == name && next.endpoint@ == endpoint
        && next.node@ == name_node(name) && next.stage == Stage::FindResolver && is_eth_call(
        call,
        REGISTRY_ADDRESS@,
        resolver_data(next.node@),
    )
}

/// What `start_resolution` does with `input`.
pub open spec fn starts_as(r: ResolveStep, input: Seq<char>, nets: Seq<Network>) -> bool {
    if !input.contains('.') {
        if is_address_literal(input) {
            r matches ResolveStep::Finished(Ok(a)) && a@ == input
        } else {
            r == ResolveStep::Finished(Err(ResolveError::InvalidAddressFormat))
        }
    } else if exists|k: int| registry_network(nets, k) {
        exists|k: int| registry_network(nets, k) && is_registry_query(r, input, nets[k].rpc_url@)
    } else {
        r == ResolveStep::Finished(Err(ResolveError::ResolutionUnavailable))
    }
}

/// What `advance_resolution` does with the reply to `lookup`'s question.
pub open spec fn advances_as(r: ResolveStep, lookup: Lookup, reply: Reply) -> bool {
    match reply_result(reply) {
        None => r matches ResolveStep::Finished(Err(ResolveError::Rpc(e))) && reply_reads_as(
            reply,
            Err(e),
        ),
        Some(t) => match word_address(t) {
            None => r == ResolveStep::Finished(Err(ResolveError::Rpc(RpcError::Decode))),
            Some(a) => if is_zero_word(t) {
                match lookup.stage {
                    Stage::FindResolver => r matches ResolveStep::Finished(
                        Err(ResolveError::NoResolverFound { name }),
                    ) && name@ == lookup.name@,
                    Stage::FindAddress => r matches ResolveStep::Finished(
                        Err(ResolveError::NoAddressFound { name }),
                    ) && name@ == lookup.name@,
                }
            } else {
                match lookup.stage {
                    Stage::FindResolver => r matches ResolveStep::Query { next, call }
                        && next.name@ == lookup.name@ && next.endpoint@ == lookup.endpoint@
                        && next.node@ == lookup.node@ && next.stage == Stage::FindAddress
                        && is_eth_call(call, a, addr_data(lookup.node@)),
                    Stage::FindAddress => r matches ResolveStep::Finished(Ok(x)) && x@ == a,
                }
            },
        },
    }
}

} // verus!

verus! {

fn contains_dot(s: &str) -> (r: bool)
    ensures
        r == s@.contains('.'),
{
    let n = s.unicode_len();
    let mut i: usize = 0;
    while i < n
        invariant
            0 <= i <= n,
            n == s@.len(),
            forall|k: int| 0 <= k < i ==> s@[k] != '.',
        decreases n - i,
    {
        if s.get_char(i) == '.' {
            assert(s@[i as int] == '.');
            return true;
        }
        i = i + 1;
    }
    false
}

fn has_0x(s: &str) -> (r: bool)
    ensures
        r == has_0x_prefix(s@),
{
    s.unicode_len() >= 2 && s.get_char(0) == '0' && s.get_char(1) == 'x'
}

/// Reads the address out of a 32-byte return word.
pub fn decode_word_address(t: &str) -> (r: Option<String>)
    ensures
        match r {
            Some(a) => word_address(t@) == Some(a@),
            None => word_address(t@) is None,
        },
{
    if t.unicode_len() != 66 || !has_0x(t) {
        return None;
    }
    let ghost digits = t@.subrange(2, 66);
    let mut i: usize = 2;
    while i < 66
        invariant
            2 <= i <= 66,
            t@.len() == 66,
            digits == t@.subrange(2, 66),
            forall|k: int| 0 <= k < i - 2 ==> is_hex_digit(#[trigger] digits[k]),
        decreases 66 - i,
    {
        let c = t.get_char(i);
        if !is_hex_char(c) {
            assert(!is_hex_digit(digits[i - 2]));
            return None;
        }
        i = i + 1;
    }
    let mut out = String::new();
    push_char(&mut out, '0');
    push_char(&mut out, 'x');
    let ghost tail = t@.subrange(26, 66);
    let mut i: usize = 26;
    while i < 66
        invariant
            26 <= i <= 66,
            t@.len() == 66,
            tail == t@.subrange(26, 66),
            out@ == seq!['0', 'x'] + tail.take(i - 26).map_values(|c: char| ascii_lower(c)),
        decreases 66 - i,
    {
        push_char(&mut out, lower_ascii_char(t.get_char(i)));
        i = i + 1;
        assert(out@ =~= seq!['0', 'x'] + tail.take(i - 26).map_values(|c: char| ascii_lower(c)));
    }
    assert(tail.take(40) =~= tail);
    Some(out)
}

fn zero_word(t: &str) -> (r: bool)
    requires
        t@.len() == 66,
    ensures
        r == is_zero_word(t@),
{
    let mut i: usize = 26;
    while i < 66
        invariant
            26 <= i <= 66,
            t@.len() == 66,
            forall|k: int| 26 <= k < i ==> t@[k] == '0',
        decreases 66 - i,
    {
        if t.get_char(i) != '0' {
            return false;
        }
        i = i + 1;
    }
    true
}

fn selector_data(selector: &str, node: &Vec<u8>) -> (r: String)
    ensures
        r@ == selector@ + hex_text(node@),
{
    let mut out = String::from_str(selector);
    append_hex(&mut out, node);
    out
}

/// First step: a literal address (no `.` in it) is checked for shape and
/// handed back unchanged without any call; a name gets its namehash and a
/// `resolver(bytes32)` query to the registry on the first network of the
/// registry chain, or `ResolutionUnavailable` when there is none.
pub fn start_resolution(input: &str, networks: &Vec<Network>) -> (r: ResolveStep)
    ensures
        starts_as(r, input@, networks@),
{
    if !contains_dot(input) {
        if has_0x(input) && input.unicode_len() == 42 {
            return ResolveStep::Finished(Ok(String::from_str(input)));
        } else {
            return ResolveStep::Finished(Err(ResolveError::InvalidAddressFormat));
        }
    }
    let mut i: usize = 0;
    while i < networks.len()
        invariant
            0 <= i <= networks@.len(),
            input@.contains('.'),
            forall|j: int| 0 <= j < i ==> networks@[j].chain_id != REGISTRY_CHAIN_ID,
        decreases networks@.len() - i,
    {
        if networks[i].chain_id == REGISTRY_CHAIN_ID {
            let node = namehash(input);
            let call = eth_call_request(
                String::from_str(REGISTRY_ADDRESS),
                selector_data("0x0178b8bf", &node),
            );
            let next = Lookup {
                name: String::from_str(input),
                endpoint: networks[i].rpc_url.clone(),
                node,
                stage: Stage::FindResolver,
            };
            let r = ResolveStep::Query { next, call };
            assert(registry_network(networks@, i as int) && is_registry_query(
                r,
                input@,
                networks@[i as int].rpc_url@,
            ));

            return r;
        }
        i = i + 1;
    }
    ResolveStep::Finished(Err(ResolveError::ResolutionUnavailable))
}

/// Next step from the reply to `lookup`'s question. A transport or decode
/// failure ends the resolution. A zero address ends it too: from the
/// registry as `NoResolverFound`, so that no second question is asked; from
/// the resolver as `NoAddressFound`. Otherwise the registry's answer leads to
/// an `addr(bytes32)` query to that resolver, and the resolver's answer is
/// the address.
pub fn advance_resolution(lookup: Lookup, reply: &Reply) -> (r: ResolveStep)
    ensures
        advances_as(r, lookup, *reply),
{
    let text = match rpc_result(reply) {
        Ok(t) => t,
        Err(e) => return ResolveStep::Finished(Err(ResolveError::Rpc(e))),
    };
    let addr = match decode_word_address(text.as_str()) {
        Some(a) => a,
        None => return ResolveStep::Finished(Err(ResolveError::Rpc(RpcError::Decode))),
    };
    if zero_word(text.as_str()) {
        return match lookup.stage {
            Stage::FindResolver => ResolveStep::Finished(
                Err(ResolveError::NoResolverFound { name: lookup.name }),
            ),
            Stage::FindAddress => ResolveStep::Finished(
                Err(ResolveError::NoAddressFound { name: lookup.name }),
            ),
        };
    }
    match lookup.stage {
        Stage::FindResolver => {
            let data = selector_data("0x3b3b57de", &lookup.node);
            let call = eth_call_request(addr, data);
            ResolveStep::Query { next: Lookup { stage: Stage::FindAddress, ..lookup }, call }
        },
        Stage::FindAddress => ResolveStep::Finished(Ok(addr)),
    }
}

} // verus!
