//! Fan-in for display: the balances read, grouped by network.
use vstd::prelude::*;
use crate::fetch::BalanceResult;
use crate::hexfmt::push_char;

verus! {

/// One network's part of the report, with one text line per balance.
#[derive(Clone, Debug, PartialEq, Eq)]
pub struct ReportEntry {
    pub network: String,
    pub lines: Vec<String>,
}

pub open spec fn result_network(b: BalanceResult) -> Seq<char> {
    match b {
        BalanceResult::Native { network_name, .. } => network_name@,
        BalanceResult::Token { network_name, .. } => network_name@,
    }
}

/// The text line of a balance: the exact amount, a space, and the symbol
/// (`ETH` for a native balance).
pub open spec fn result_line(b: BalanceResult) -> Seq<char> {
    match b {
        BalanceResult::Native { amount, .. } => amount.text() + seq![' '] + "ETH"@,
        BalanceResult::Token { symbol, amount, .. } => amount.text() + seq![' '] + symbol@,
    }
}

/// Lines of the native balances of network `n`, in order.
pub open spec fn native_lines(s: Seq<BalanceResult>, n: Seq<char>) -> Seq<Seq<char>>
    decreases s.len(),
{
    if s.len() == 0 {
        Seq::empty()
    } else if s.last() is Native && result_network(s.last()) == n {
        native_lines(s.drop_last(), n).push(result_line(s.last()))
    } else {
        native_lines(s.drop_last(), n)
    }
}

/// Lines of the token balances of network `n`, in order.
pub open spec fn token_lines(s: Seq<BalanceResult>, n: Seq<char>) -> Seq<Seq<char>>
    decreases s.len(),
{
    if s.len() == 0 {
        Seq::empty()
    } else if s.last() is Token && result_network(s.last()) == n {
        token_lines(s.drop_last(), n).push(result_line(s.last()))
    } else {
        token_lines(s.drop_last(), n)
    }
}

/// The lines under network `n`: native balance first, then tokens, each in
/// the order given.
pub open spec fn entry_lines(s: Seq<BalanceResult>, n: Seq<char>) -> Seq<Seq<char>> {
    native_lines(s, n) + token_lines(s, n)
}

/// The texts of a list of strings.
pub open spec fn texts_of(v: Seq<String>) -> Seq<Seq<char>> {
    v.map_values(|l: String| l@)
}

/// Strict lexicographic order of texts, by character code.
pub open spec fn lex_lt(a: Seq<char>, b: Seq<char>) -> bool
    decreases a.len(),
{
    if a.len() == 0 {
        b.len() > 0
    } else if b.len() == 0 {
        false
    } else if a[0] != b[0] {
        a[0] < b[0]
    } else {
        lex_lt(a.drop_first(), b.drop_first())
    }
}

pub open spec fn strictly_sorted(ns: Seq<Seq<char>>) -> bool {
    forall|a: int, b: int| 0 <= a < b < ns.len() ==> lex_lt(#[trigger] ns[a], #[trigger] ns[b])
}

/// Some balance in `s` is for network `n`.
pub open spec fn has_network(s: Seq<BalanceResult>, n: Seq<char>) -> bool {
    exists|k: int| 0 <= k < s.len() && #[trigger] result_network(s[k]) == n
}

pub open spec fn names_of(r: Seq<ReportEntry>) -> Seq<Seq<char>> {
    r.map_values(|e: ReportEntry| e.network@)
}

/// The report of `s`: one entry per network that has a balance, ordered by
/// network name whatever the order of `s`, each with the lines of that
/// network.
pub open spec fn is_report(r: Seq<ReportEntry>, s: Seq<BalanceResult>) -> bool {
    &&& strictly_sorted(names_of(r))
    &&& forall|n: Seq<char>| #[trigger] names_of(r).contains(n) <==> has_network(s, n)
    &&& forall|k: int|
        0 <= k < r.len() ==> texts_of((#[trigger] r[k]).lines@) == entry_lines(s, r[k].network@)
}

proof fn lemma_lex_irreflexive(a: Seq<char>)
    ensures
        !lex_lt(a, a),
    decreases a.len(),
{
    if a.len() > 0 {
        lemma_lex_irreflexive(a.drop_first());
    }
}

proof fn lemma_lex_asymmetric(a: Seq<char>, b: Seq<char>)
    ensures
        lex_lt(a, b) ==> !lex_lt(b, a),
    decreases a.len(),
{
    if a.len() > 0 && b.len() > 0 && a[0] == b[0] {
        lemma_lex_asymmetric(a.drop_first(), b.drop_first());
    }
}

proof fn lemma_lex_total(a: Seq<char>, b: Seq<char>)
    ensures
        a != b ==> lex_lt(a, b) || lex_lt(b, a),
    decreases a.len(),
{
    if a.len() == 0 && b.len() == 0 {
        assert(a =~= b);
    } else if a.len() > 0 && b.len() > 0 && a[0] == b[0] {
        lemma_lex_total(a.drop_first(), b.drop_first());
        if a.drop_first() == b.drop_first() {
            assert forall|i: int| 0 <= i < a.len() implies a[i] == b[i] by {
                if i > 0 {
                    assert(a[i] == a.drop_first()[i - 1]);
                    assert(b[i] == b.drop_first()[i - 1]);
                }
            }
            assert(a =~= b);
        }
    }
}

proof fn lemma_lex_transitive(a: Seq<char>, b: Seq<char>, c: Seq<char>)
    requires
        lex_lt(a, b),
        lex_lt(b, c),
    ensures
        lex_lt(a, c),
    decreases a.len(),
{
    if a.len() > 0 && b.len() > 0 && c.len() > 0 && a[0] == b[0] && b[0] == c[0] {
        lemma_lex_transitive(a.drop_first(), b.drop_first(), c.drop_first());
    }
}

/// Whether `a` comes strictly before `b`.
fn text_lt(a: &str, b: &str) -> (r: bool)
    ensures
        r == lex_lt(a@, b@),
{
    let la = a.unicode_len();
    let lb = b.unicode_len();
    let mut i: usize = 0;
    assert(a@.skip(0) =~= a@ && b@.skip(0) =~= b@);
    while i < la && i < lb
        invariant
            0 <= i <= la,
            i <= lb,
            la == a@.len(),
            lb == b@.len(),
            lex_lt(a@, b@) == lex_lt(a@.skip(i as int), b@.skip(i as int)),
        decreases la - i,
    {
        let x = a.get_char(i);
        let y = b.get_char(i);
        if x != y {
            assert(a@.skip(i as int)[0] == x && b@.skip(i as int)[0] == y);
            return x < y;
        }
        assert(a@.skip(i as int).drop_first() =~= a@.skip(i + 1));
        assert(b@.skip(i as int).drop_first() =~= b@.skip(i + 1));
        i = i + 1;
    }
    proof {
        if i == la {
            assert(a@.skip(i as int).len() == 0);
        } else {
            assert(b@.skip(i as int).len() == 0);
        }
    }
    i < lb
}

/// The text line of one balance.
pub fn balance_line(b: &BalanceResult) -> (r: String)
    ensures
        r@ == result_line(*b),
{
    match b {
        BalanceResult::Native { amount, .. } => {
            let mut out = amount.to_decimal_string();
            push_char(&mut out, ' ');
            out.append("ETH");
            out
        },
        BalanceResult::Token { symbol, amount, .. } => {
            let mut out = amount.to_decimal_string();
            push_char(&mut out, ' ');
            out.append(symbol.as_str());
            out
        },
    }
}

fn network_of(b: &BalanceResult) -> (r: &String)
    ensures
        r@ == result_network(*b),
{
    match b {
        BalanceResult::Native { network_name, .. } => network_name,
        BalanceResult::Token { network_name, .. } => network_name,
    }
}

fn is_native(b: &BalanceResult) -> (r: bool)
    ensures
        r == b is Native,
{
    match b {
        BalanceResult::Native { .. } => true,
        BalanceResult::Token { .. } => false,
    }
}

fn sorted_networks(results: &Vec<BalanceResult>) -> (names: Vec<String>)
    ensures
        strictly_sorted(texts_of(names@)),
        forall|n: Seq<char>|
            #[trigger] texts_of(names@).contains(n) <==> has_network(results@, n),
{
    let ghost s = results@;
    let mut names: Vec<String> = Vec::new();
    let mut i: usize = 0;
    while i < results.len()
        invariant
            0 <= i <= s.len(),
            s == results@,
            strictly_sorted(texts_of(names@)),
            forall|m: Seq<char>|
                #[trigger] texts_of(names@).contains(m) <==> has_network(
                    s.take(i as int),
                    m,
                ),
        decreases s.len() - i,
    {
        let ghost prev = texts_of(names@);
        let n = network_of(&results[i]);
        let mut p: usize = 0;
        while p < names.len() && text_lt(names[p].as_str(), n.as_str())
            invariant
                0 <= p <= names@.len(),
                prev == texts_of(names@),
                forall|q: int| 0 <= q < p ==> lex_lt(#[trigger] prev[q], n@),
            decreases names@.len() - p,
        {
            assert(prev[p as int] == names@[p as int]@);
            p = p + 1;
        }
        let present = p < names.len() && names[p] == *n;
        if !present {
            proof {
                if p < prev.len() {
                    lemma_lex_total(prev[p as int], n@);
                }
            }
            names.insert(p, n.clone());
            let ghost cur = texts_of(names@);
            assert(cur =~= prev.insert(p as int, n@));
            assert forall|a: int, b: int| 0 <= a < b < cur.len() implies lex_lt(
                #[trigger] cur[a],
                #[trigger] cur[b],
            ) by {
                if b == p {
                } else if a == p {
                    if b - 1 > p {
                        lemma_lex_transitive(n@, prev[p as int], prev[b - 1]);
                    }
                } else if a < p && b > p {
                    assert(lex_lt(prev[a], n@));
                    if b - 1 > p {
                        lemma_lex_transitive(n@, prev[p as int], prev[b - 1]);
                    }
                    lemma_lex_transitive(prev[a], n@, prev[b - 1]);
                } else if a > p {
                    assert(cur[a] == prev[a - 1] && cur[b] == prev[b - 1]);
                } else {
                    assert(cur[a] == prev[a] && cur[b] == prev[b]);
                }
            }
        }
        proof {
            let cur = texts_of(names@);
            let t = s.take(i + 1);
            assert(t.drop_last() =~= s.take(i as int));
            assert(result_network(t[i as int]) == n@);
            if present {
                assert(prev[p as int] == n@);
            }
            assert forall|m: Seq<char>| #[trigger] cur.contains(m) <==> has_network(t, m) by {
                if has_network(t, m) {
                    let k = choose|k: int| 0 <= k < t.len() && #[trigger] result_network(t[k]) == m;
                    if k < i {
                        assert(result_network(s.take(i as int)[k]) == m);
                        assert(prev.contains(m));
                        let q = choose|q: int| 0 <= q < prev.len() && prev[q] == m;
                        if !present {
                            if q < p {
                                assert(cur[q] == m);
                            } else {
                                assert(cur[q + 1] == m);
                            }
                        }
                    } else {
                        if !present {
                            assert(cur[p as int] == m);
                        }
                    }
                }
                if cur.contains(m) {
                    let q = choose|q: int| 0 <= q < cur.len() && cur[q] == m;
                    if present || q != p {
                        let q2 = if !present && q > p { q - 1 } else { q };
                        assert(prev[q2] == m);
                        assert(prev.contains(m));
                        let k = choose|k: int|
                            0 <= k < s.take(i as int).len() && #[trigger] result_network(
                                s.take(i as int)[k],
                            ) == m;
                        assert(result_network(t[k]) == m);
                    } else {
                        assert(result_network(t[i as int]) == m);
                    }
                }
            }
        }
        i = i + 1;
    }
    assert(s.take(s.len() as int) =~= s);
    names
}

fn lines_for(results: &Vec<BalanceResult>, n: &String) -> (lines: Vec<String>)
    ensures
        texts_of(lines@) == entry_lines(results@, n@),
{
    let ghost s = results@;
    let mut lines: Vec<String> = Vec::new();
    let mut i: usize = 0;
    while i < results.len()
        invariant
            0 <= i <= s.len(),
            s == results@,
            texts_of(lines@) == native_lines(s.take(i as int), n@),
        decreases s.len() - i,
    {
        assert(s.take(i + 1).drop_last() =~= s.take(i as int));
        let b = &results[i];
        if is_native(b) && *network_of(b) == *n {
            let ghost prev = lines@;
            lines.push(balance_line(b));
            assert(texts_of(lines@) =~= texts_of(prev).push(result_line(*b)));
        }
        i = i + 1;
    }
    assert(s.take(s.len() as int) =~= s);
    let ghost natives = texts_of(lines@);
    let mut i: usize = 0;
    assert(s.take(0) =~= Seq::<BalanceResult>::empty());
    while i < results.len()
        invariant
            0 <= i <= s.len(),
            s == results@,
            natives == native_lines(s, n@),
            texts_of(lines@) == natives + token_lines(s.take(i as int), n@),
        decreases s.len() - i,
    {
        assert(s.take(i + 1).drop_last() =~= s.take(i as int));
        let b = &results[i];
        if !is_native(b) && *network_of(b) == *n {
            let ghost prev = lines@;
            lines.push(balance_line(b));
            assert(texts_of(lines@) =~= texts_of(prev).push(result_line(*b)));
        }
        i = i + 1;
        assert(texts_of(lines@) =~= natives + token_lines(s.take(i as int), n@));
    }
    assert(s.take(s.len() as int) =~= s);
    lines
}

/// Groups balances by network: one entry per network that gave at least
/// one balance, ordered by network name so that the order in which balances
/// arrived does not matter, each holding the exact lines of its native
/// balance and then of its tokens. Networks without a balance get no entry.
pub fn aggregate(results: &Vec<BalanceResult>) -> (r: Vec<ReportEntry>)
    ensures
        is_report(r@, results@),
{
    let names = sorted_networks(results);
    let ghost ns = texts_of(names@);
    let mut r: Vec<ReportEntry> = Vec::new();
    let mut k: usize = 0;
    while k < names.len()
        invariant
            0 <= k <= names@.len(),
            ns == texts_of(names@),
            r@.len() == k,
            forall|a: int| 0 <= a < k ==> (#[trigger] r@[a]).network@ == ns[a],
            forall|a: int|
                0 <= a < k ==> texts_of((#[trigger] r@[a]).lines@) == entry_lines(
                    results@,
                    r@[a].network@,
                ),
        decreases names@.len() - k,
    {
        let lines = lines_for(results, &names[k]);
        r.push(ReportEntry { network: names[k].clone(), lines });
        k = k + 1;
    }
    assert(names_of(r@) =~= ns);
    r
}

} // verus!

verus! {

proof fn lemma_entry_grows(s: Seq<BalanceResult>, n: Seq<char>, x: Seq<char>)
    requires
        s.len() > 0,
        entry_lines(s.drop_last(), n).contains(x),
    ensures
        entry_lines(s, n).contains(x),
{
    let t = s.drop_last();
    let p = choose|p: int| 0 <= p < entry_lines(t, n).len() && entry_lines(t, n)[p] == x;
    let nt = native_lines(t, n);
    let ns = native_lines(s, n);
    let tt = token_lines(t, n);
    let ts = token_lines(s, n);
    assert(ns.len() >= nt.len() && forall|q: int| 0 <= q < nt.len() ==> ns[q] == nt[q]);
    assert(ts.len() >= tt.len() && forall|q: int| 0 <= q < tt.len() ==> ts[q] == tt[q]);
    if p < nt.len() {
        assert(entry_lines(s, n)[p] == x);
    } else {
        assert(entry_lines(s, n)[ns.len() + p - nt.len()] == x);
    }
}

proof fn lemma_line_in_entry(s: Seq<BalanceResult>, k: int)
    requires
        0 <= k < s.len(),
    ensures
        entry_lines(s, result_network(s[k])).contains(result_line(s[k])),
    decreases s.len(),
{
    let n = result_network(s[k]);
    if k < s.len() - 1 {
        lemma_line_in_entry(s.drop_last(), k);
        assert(s.drop_last()[k] == s[k]);
        lemma_entry_grows(s, n, result_line(s[k]));
    } else if s[k] is Native {
        assert(entry_lines(s, n)[native_lines(s, n).len() - 1] == result_line(s[k]));
    } else {
        assert(entry_lines(s, n)[entry_lines(s, n).len() - 1] == result_line(s[k]));
    }
}

/// The line of the `k`-th balance stands in the entry of its network.
pub open spec fn line_filed(r: Seq<ReportEntry>, s: Seq<BalanceResult>, k: int) -> bool {
    exists|a: int|
        0 <= a < r.len() && r[a].network@ == result_network(s[k]) && texts_of(
            r[a].lines@,
        ).contains(result_line(s[k]))
}

/// Balances of one network collapse into one entry: no network is listed
/// twice, and every balance's line stands in the entry of its own network.
pub proof fn grouping_by_network(r: Seq<ReportEntry>, s: Seq<BalanceResult>)
    requires
        is_report(r, s),
    ensures
        forall|a: int, b: int| 0 <= a < b < r.len() ==> r[a].network@ != r[b].network@,
        forall|k: int| 0 <= k < s.len() ==> #[trigger] line_filed(r, s, k),
{
    let ns = names_of(r);
    assert forall|a: int, b: int| 0 <= a < b < r.len() implies r[a].network@ != r[b].network@ by {
        assert(lex_lt(ns[a], ns[b]));
        lemma_lex_irreflexive(ns[a]);
    }
    assert forall|k: int| 0 <= k < s.len() implies #[trigger] line_filed(r, s, k) by {
        let n = result_network(s[k]);
        assert(has_network(s, n));
        assert(ns.contains(n));
        let a = choose|a: int| 0 <= a < ns.len() && ns[a] == n;
        lemma_line_in_entry(s, k);
        assert(ns[a] == r[a].network@);
        assert(texts_of(r[a].lines@) == entry_lines(s, r[a].network@));
        assert(0 <= a < r.len() && r[a].network@ == result_network(s[k]) && texts_of(
            r[a].lines@,
        ).contains(result_line(s[k])));
    }
}

proof fn lemma_sorted_unique(a: Seq<Seq<char>>, b: Seq<Seq<char>>)
    requires
        strictly_sorted(a),
        strictly_sorted(b),
        forall|x: Seq<char>| a.contains(x) <==> b.contains(x),
    ensures
        a == b,
    decreases a.len(),
{
    if a.len() == 0 {
        if b.len() > 0 {
            assert(b.contains(b[0]));
        }
        assert(a =~= b);
    } else {
        assert(a.contains(a[0]));
        assert(b.len() > 0);
        assert(b.contains(b[0]));
        if a[0] != b[0] {
            let i = choose|i: int| 0 <= i < b.len() && b[i] == a[0];
            let j = choose|j: int| 0 <= j < a.len() && a[j] == b[0];
            assert(i > 0 && j > 0);
            assert(lex_lt(b[0], b[i]));
            assert(lex_lt(a[0], a[j]));
            lemma_lex_asymmetric(a[0], b[0]);
        }
        let a1 = a.drop_first();
        let b1 = b.drop_first();
        assert forall|x: Seq<char>| a1.contains(x) <==> b1.contains(x) by {
            if a1.contains(x) {
                let i = choose|i: int| 0 <= i < a1.len() && a1[i] == x;
                assert(lex_lt(a[0], a[i + 1]));
                lemma_lex_irreflexive(x);
                assert(a.contains(x));
                let j = choose|j: int| 0 <= j < b.len() && b[j] == x;
                assert(j != 0);
                assert(b1[j - 1] == x);
            }
            if b1.contains(x) {
                let i = choose|i: int| 0 <= i < b1.len() && b1[i] == x;
                assert(lex_lt(b[0], b[i + 1]));
                lemma_lex_irreflexive(x);
                assert(b.contains(x));
                let j = choose|j: int| 0 <= j < a.len() && a[j] == x;
                assert(j != 0);
                assert(a1[j - 1] == x);
            }
        }
        assert forall|p: int, q: int| 0 <= p < q < a1.len() implies lex_lt(
            #[trigger] a1[p],
            #[trigger] a1[q],
        ) by {
            assert(lex_lt(a[p + 1], a[q + 1]));
        }
        assert forall|p: int, q: int| 0 <= p < q < b1.len() implies lex_lt(
            #[trigger] b1[p],
            #[trigger] b1[q],
        ) by {
            assert(lex_lt(b[p + 1], b[q + 1]));
        }
        lemma_sorted_unique(a1, b1);
        assert(a =~= b1.insert(0, a[0]));
        assert(b =~= b1.insert(0, b[0]));
    }
}

/// The order of the report does not depend on the order of the balances:
/// two lists with the same balances, in any order, give reports with the
/// same networks in the same order.
pub proof fn report_order_is_fixed(
    r1: Seq<ReportEntry>,
    s1: Seq<BalanceResult>,
    r2: Seq<ReportEntry>,
    s2: Seq<BalanceResult>,
)
    requires
        is_report(r1, s1),
        is_report(r2, s2),
        forall|x: BalanceResult| s1.contains(x) <==> s2.contains(x),
    ensures
        names_of(r1) == names_of(r2),
{
    assert forall|n: Seq<char>| has_network(s1, n) <==> has_network(s2, n) by {
        if has_network(s1, n) {
            let k = choose|k: int| 0 <= k < s1.len() && #[trigger] result_network(s1[k]) == n;
            assert(s1.contains(s1[k]));
            let j = choose|j: int| 0 <= j < s2.len() && s2[j] == s1[k];
            assert(result_network(s2[j]) == n);
        }
        if has_network(s2, n) {
            let k = choose|k: int| 0 <= k < s2.len() && #[trigger] result_network(s2[k]) == n;
            assert(s2.contains(s2[k]));
            let j = choose|j: int| 0 <= j < s1.len() && s1[j] == s2[k];
            assert(result_network(s1[j]) == n);
        }
    }
    assert forall|x: Seq<char>| names_of(r1).contains(x) <==> names_of(r2).contains(x) by {
        assert(names_of(r1).contains(x) <==> has_network(s1, x));
        assert(names_of(r2).contains(x) <==> has_network(s2, x));
    }
    lemma_sorted_unique(names_of(r1), names_of(r2));
}

} // verus!
