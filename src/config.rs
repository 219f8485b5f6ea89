//! From configuration entries to the set of networks: each entry is keyed by
//! its chain id written in decimal, and a chain id names one network only.
use vstd::prelude::*;
use crate::network::{Network, TokenSpec};

verus! {

/// One configured network as read from the configuration file, keyed by the
/// text of its chain id.
#[derive(Clone, Debug, PartialEq, Eq)]
pub struct NetworkEntry {
    pub key: String,
    pub name: String,
    pub rpc_url: String,
    pub tokens: Vec<TokenSpec>,
}

pub open spec fn is_dec_digit(c: char) -> bool {
    '0' <= c && c <= '9'
}

pub open spec fn dec_value(s: Seq<char>) -> nat
    decreases s.len(),
{
    if s.len() == 0 {
        0
    } else {
        dec_value(s.drop_last()) * 10 + (s.last() as u32 - '0' as u32) as nat
    }
}

pub open spec fn unsigned_digits(s: Seq<char>) -> Seq<char> {
    if s.len() > 0 && s[0] == '+' {
        s.drop_first()
    } else {
        s
    }
}

/// A chain id in decimal, as std reads a `u64`: an optional `+`, then one
/// or more digits, with a value that fits.
pub open spec fn chain_id_of(s: Seq<char>) -> Option<u64> {
    u64_of_digits(unsigned_digits(s))
}

pub open spec fn all_dec(d: Seq<char>) -> bool {
    forall|i: int| 0 <= i < d.len() ==> is_dec_digit(#[trigger] d[i])
}

pub open spec fn u64_of_digits(d: Seq<char>) -> Option<u64> {
    if d.len() > 0 && all_dec(d) && dec_value(d) <= u64::MAX {
        Some(dec_value(d) as u64)
    } else {
        None
    }
}

/// Position of the network with chain id `c`, searching from the end, or -1.
pub open spec fn index_of_chain(nets: Seq<Network>, c: u64) -> int
    decreases nets.len(),
{
    if nets.len() == 0 {
        -1
    } else if nets.last().chain_id == c {
        nets.len() - 1
    } else {
        index_of_chain(nets.drop_last(), c)
    }
}

/// The networks of a list of entries, in order of first appearance of each
/// chain id. An entry whose key is no chain id is skipped; a later entry for
/// the same chain id replaces the earlier one in place.
pub open spec fn collected(es: Seq<NetworkEntry>) -> Seq<Network>
    decreases es.len(),
{
    if es.len() == 0 {
        Seq::empty()
    } else {
        let prev = collected(es.drop_last());
        let e = es.last();
        match chain_id_of(e.key@) {
            None => prev,
            Some(c) => {
                let n = Network { chain_id: c, name: e.name, rpc_url: e.rpc_url, tokens: e.tokens };
                let k = index_of_chain(prev, c);
                if k >= 0 {
                    prev.update(k, n)
                } else {
                    prev.push(n)
                }
            },
        }
    }
}

proof fn lemma_dec_value_monotone(s: Seq<char>, i: int, j: int)
    requires
        0 <= i <= j <= s.len(),
        forall|k: int| 0 <= k < s.len() ==> is_dec_digit(#[trigger] s[k]),
    ensures
        dec_value(s.take(i)) <= dec_value(s.take(j)),
    decreases j - i,
{
    if i < j {
        lemma_dec_value_monotone(s, i, j - 1);
        assert(s.take(j).drop_last() =~= s.take(j - 1));
    }
}

/// Reads a chain id written in decimal.
pub fn parse_chain_id(s: &str) -> (r: Option<u64>)
    ensures
        r == chain_id_of(s@),
{
    let n = s.unicode_len();
    let start: usize = if n > 0 && s.get_char(0) == '+' {
        1
    } else {
        0
    };
    let ghost d = unsigned_digits(s@);
    assert(d =~= s@.subrange(start as int, n as int));
    if start == n {
        return None;
    }
    let mut i: usize = start;
    while i < n
        invariant
            start <= i <= n,
            n == s@.len(),
            d == s@.subrange(start as int, n as int),
            d == unsigned_digits(s@),
            forall|k: int| 0 <= k < i - start ==> is_dec_digit(#[trigger] d[k]),
        decreases n - i,
    {
        let c = s.get_char(i);
        if !('0' <= c && c <= '9') {
            assert(!is_dec_digit(d[i - start]));
            return None;
        }
        i = i + 1;
    }
    let mut v: u64 = 0;
    let mut i: usize = start;
    while i < n
        invariant
            start <= i <= n,
            n == s@.len(),
            d == s@.subrange(start as int, n as int),
            d == unsigned_digits(s@),
            forall|k: int| 0 <= k < d.len() ==> is_dec_digit(#[trigger] d[k]),
            v as nat == dec_value(d.take(i - start)),
        decreases n - i,
    {
        let c = s.get_char(i);
        assert(c == d[i - start]);
        let x = (c as u32 - '0' as u32) as u64;
        assert(d.take(i - start + 1).drop_last() =~= d.take(i - start));
        if v > (u64::MAX - x) / 10 {
            assert(dec_value(d.take(i - start + 1)) > u64::MAX) by (nonlinear_arith)
                requires
                    dec_value(d.take(i - start + 1)) == v as nat * 10 + x as nat,
                    v > (u64::MAX - x) / 10,
                    x < 10,
            ;
            proof {
                lemma_dec_value_monotone(d, i - start + 1, d.len() as int);
                assert(d.take(d.len() as int) =~= d);
            }
            return None;
        }
        v = v * 10 + x;
        i = i + 1;
    }
    assert(d.take(n - start) =~= d);
    Some(v)
}

} // verus!

verus! {

proof fn lemma_index_of_chain(nets: Seq<Network>, c: u64)
    ensures
        -1 <= index_of_chain(nets, c) < nets.len(),
        index_of_chain(nets, c) >= 0 ==> nets[index_of_chain(nets, c)].chain_id == c,
        index_of_chain(nets, c) == -1 ==> forall|i: int|
            0 <= i < nets.len() ==> (#[trigger] nets[i]).chain_id != c,
    decreases nets.len(),
{
    if nets.len() > 0 {
        lemma_index_of_chain(nets.drop_last(), c);
        if index_of_chain(nets, c) == -1 {
            assert forall|i: int| 0 <= i < nets.len() implies (#[trigger] nets[i]).chain_id != c by {
                if i < nets.len() - 1 {
                    assert(nets[i] == nets.drop_last()[i]);
                }
            }
        }
    }
}

/// No two collected networks share a chain id.
pub proof fn chain_ids_unique(es: Seq<NetworkEntry>)
    ensures
        forall|a: int, b: int|
            0 <= a < b < collected(es).len() ==> (#[trigger] collected(es)[a]).chain_id
                != (#[trigger] collected(es)[b]).chain_id,
    decreases es.len(),
{
    if es.len() > 0 {
        let prev = collected(es.drop_last());
        chain_ids_unique(es.drop_last());
        match chain_id_of(es.last().key@) {
            None => {},
            Some(c) => {
                lemma_index_of_chain(prev, c);
                let k = index_of_chain(prev, c);
                let r = collected(es);
                assert forall|a: int, b: int| 0 <= a < b < r.len() implies (#[trigger] r[a]).chain_id
                    != (#[trigger] r[b]).chain_id by {
                    if k < 0 && b == prev.len() {
                        assert(r[a] == prev[a]);
                    } else if a != k && b != k {
                        assert(r[a] == prev[a] && r[b] == prev[b]);
                    } else if a == k {
                        assert(r[b] == prev[b]);
                    } else {
                        assert(r[a] == prev[a]);
                    }
                }
            },
        }
    }
}

fn find_chain(nets: &Vec<Network>, c: u64) -> (r: Option<usize>)
    ensures
        match r {
            Some(k) => index_of_chain(nets@, c) == k,
            None => index_of_chain(nets@, c) == -1,
        },
{
    let mut j: usize = nets.len();
    assert(nets@.take(j as int) =~= nets@);
    while j > 0
        invariant
            0 <= j <= nets@.len(),
            index_of_chain(nets@, c) == index_of_chain(nets@.take(j as int), c),
        decreases j,
    {
        assert(nets@.take(j as int).drop_last() =~= nets@.take(j - 1));
        if nets[j - 1].chain_id == c {
            return Some(j - 1);
        }
        j = j - 1;
    }
    None
}

/// The networks of the configuration entries: each entry whose key reads
/// as a chain id becomes a network; an entry with the chain id of an earlier
/// one replaces it in place. No chain id occurs twice in the result.
pub fn collect_networks(entries: Vec<NetworkEntry>) -> (r: Vec<Network>)
    ensures
        r@ == collected(entries@),
        forall|a: int, b: int|
            0 <= a < b < r@.len() ==> (#[trigger] r@[a]).chain_id != (#[trigger] r@[b]).chain_id,
{
    let ghost es = entries@;
    let mut entries = entries;
    let mut r: Vec<Network> = Vec::new();
    let ghost mut i: int = 0;
    assert(es.take(0) =~= Seq::<NetworkEntry>::empty());
    while entries.len() > 0
        invariant
            0 <= i <= es.len(),
            entries@ == es.skip(i),
            r@ == collected(es.take(i)),
        decreases entries@.len(),
    {
        let e = entries.remove(0);
        assert(e == es[i]);
        assert(es.take(i + 1).drop_last() =~= es.take(i));
        assert(entries@ =~= es.skip(i + 1));
        match parse_chain_id(e.key.as_str()) {
            None => {},
            Some(c) => {
                let n = Network { chain_id: c, name: e.name, rpc_url: e.rpc_url, tokens: e.tokens };
                match find_chain(&r, c) {
                    Some(k) => {
                        proof {
                            lemma_index_of_chain(r@, c);
                        }
                        r.set(k, n);
                    },
                    None => r.push(n),
                }
            },
        }
        proof {
            i = i + 1;
        }
    }
    assert(es.skip(i).len() == 0);
    assert(es.take(i) =~= es);
    proof {
        chain_ids_unique(es);
    }
    r
}

} // verus!
