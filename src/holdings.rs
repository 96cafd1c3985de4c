use vstd::prelude::*;
use crate::model::MAX_AMOUNT;
use crate::portfolio::{
    lemma_value_at_most_total, lemma_value_sum_grows, total_value, value_sum, TokenBalance,
    TokenSignals,
};

verus! {

/// No two holdings have the same token address.
pub open spec fn distinct_addresses(s: Seq<TokenBalance>) -> bool {
    forall|i: int, j: int|
        0 <= i < j < s.len() ==> #[trigger] s[i].token_address@ != #[trigger] s[j].token_address@
}

/// The token addresses of a list of holdings.
pub open spec fn addresses(s: Seq<TokenBalance>) -> Seq<Seq<char>> {
    s.map_values(|t: TokenBalance| t.token_address@)
}

/// Index of the first holding from `i` on with address `a`, or -1.
pub open spec fn index_in(m: Seq<TokenBalance>, a: Seq<char>, i: int) -> int
    decreases m.len() - i,
{
    if i < 0 || i >= m.len() {
        -1
    } else if m[i].token_address@ == a {
        i
    } else {
        index_in(m, a, i + 1)
    }
}

/// `a + b`, or `u64::MAX` when that does not fit.
pub open spec fn saturating_sum(a: u64, b: u64) -> u64 {
    if a + b > u64::MAX {
        u64::MAX
    } else {
        (a + b) as u64
    }
}

/// The holdings with one entry per token address, in order of first
/// appearance; the amounts and values of a token's holdings are added up.
pub open spec fn merged(s: Seq<TokenBalance>) -> Seq<TokenBalance>
    decreases s.len(),
{
    if s.len() == 0 {
        Seq::empty()
    } else {
        let m = merged(s.drop_last());
        let t = s.last();
        let k = index_in(m, t.token_address@, 0);
        if k < 0 {
            m.push(t)
        } else {
            m.update(
                k,
                TokenBalance {
                    token_address: m[k].token_address,
                    amount: saturating_sum(m[k].amount, t.amount),
                    value_usd: (m[k].value_usd + t.value_usd) as u64,
                },
            )
        }
    }
}

/// The signals that go with `merged(s)`: those of each token's first holding.
pub open spec fn merged_signals(s: Seq<TokenBalance>, g: Seq<TokenSignals>) -> Seq<TokenSignals>
    decreases s.len(),
{
    if s.len() == 0 {
        Seq::empty()
    } else {
        let rest = merged_signals(s.drop_last(), g.subrange(0, s.len() - 1));
        if index_in(merged(s.drop_last()), s.last().token_address@, 0) < 0 {
            rest.push(g[s.len() - 1])
        } else {
            rest
        }
    }
}

proof fn lemma_index_in(m: Seq<TokenBalance>, a: Seq<char>, i: int)
    requires
        0 <= i,
    ensures
        index_in(m, a, i) == -1 ==> forall|j: int| i <= j < m.len() ==> #[trigger] m[j].token_address@ != a,
        index_in(m, a, i) != -1 ==> i <= index_in(m, a, i) < m.len() && m[index_in(m, a, i)].token_address@ == a,
    decreases m.len() - i,
{
    if i < m.len() && m[i].token_address@ != a {
        lemma_index_in(m, a, i + 1);
    }
}

proof fn lemma_value_sum_agree(a: Seq<TokenBalance>, b: Seq<TokenBalance>, n: nat)
    requires
        n <= a.len(),
        n <= b.len(),
        forall|j: int| 0 <= j < n ==> #[trigger] a[j].value_usd == b[j].value_usd,
    ensures
        value_sum(a, n) == value_sum(b, n),
    decreases n,
{
    if n > 0 {
        lemma_value_sum_agree(a, b, (n - 1) as nat);
    }
}

proof fn lemma_value_sum_update(m: Seq<TokenBalance>, k: int, e: TokenBalance, n: nat)
    requires
        0 <= k < m.len(),
        n <= m.len(),
    ensures
        value_sum(m.update(k, e), n) == value_sum(m, n) + if k < n {
            e.value_usd - m[k].value_usd
        } else {
            0
        },
    decreases n,
{
    if n > 0 {
        lemma_value_sum_update(m, k, e, (n - 1) as nat);
    }
}

/// The total of a prefix is at most the total.
proof fn lemma_prefix_total(s: Seq<TokenBalance>, i: int)
    requires
        0 <= i <= s.len(),
    ensures
        total_value(s.subrange(0, i)) == value_sum(s, i as nat),
        total_value(s.subrange(0, i)) <= total_value(s),
{
    lemma_value_sum_agree(s.subrange(0, i), s, i as nat);
    lemma_value_sum_grows(s, i as nat, s.len());
}

/// Merging keeps the total, leaves one holding per address, keeps the set
/// of addresses, and pairs every merged holding with one signal.
pub proof fn lemma_merged(s: Seq<TokenBalance>, g: Seq<TokenSignals>)
    requires
        total_value(s) <= MAX_AMOUNT,
        g.len() == s.len(),
    ensures
        total_value(merged(s)) == total_value(s),
        distinct_addresses(merged(s)),
        addresses(merged(s)).to_set() == addresses(s).to_set(),
        merged_signals(s, g).len() == merged(s).len(),
    decreases s.len(),
{
    if s.len() > 0 {
        let p = s.drop_last();
        let t = s.last();
        lemma_prefix_total(s, s.len() - 1);
        assert(p =~= s.subrange(0, s.len() - 1));
        assert(value_sum(s, s.len()) == value_sum(s, (s.len() - 1) as nat) + t.value_usd);
        lemma_merged(p, g.subrange(0, s.len() - 1));
        let m = merged(p);
        let k = index_in(m, t.token_address@, 0);
        lemma_index_in(m, t.token_address@, 0);
        assert(addresses(s) =~= addresses(p).push(t.token_address@));
        addresses(p).lemma_push_to_set_commute(t.token_address@);
        if k < 0 {
            let mm = m.push(t);
            lemma_value_sum_agree(mm, m, m.len());
            assert(addresses(mm) =~= addresses(m).push(t.token_address@));
            addresses(m).lemma_push_to_set_commute(t.token_address@);
        } else {
            lemma_value_at_most_total(m, k);
            let e = TokenBalance {
                token_address: m[k].token_address,
                amount: saturating_sum(m[k].amount, t.amount),
                value_usd: (m[k].value_usd + t.value_usd) as u64,
            };
            lemma_value_sum_update(m, k, e, m.len());
            let mm = m.update(k, e);
            assert(addresses(mm) =~= addresses(m));
            assert(addresses(m)[k] == t.token_address@);
            assert(addresses(m).to_set().insert(t.token_address@) =~= addresses(m).to_set());
        }
    }
}

/// The holdings merged by address, with the signals of each token's first
/// holding.
pub fn merge_holdings(tokens: &Vec<TokenBalance>, signals: &Vec<TokenSignals>) -> (r: (
    Vec<TokenBalance>,
    Vec<TokenSignals>,
))
    requires
        total_value(tokens@) <= MAX_AMOUNT,
        signals@.len() == tokens@.len(),
    ensures
        r.0@ == merged(tokens@),
        r.1@ == merged_signals(tokens@, signals@),
{
    let ghost s = tokens@;
    let ghost g = signals@;
    let n = tokens.len();
    let mut out: Vec<TokenBalance> = Vec::new();
    let mut out_g: Vec<TokenSignals> = Vec::new();
    let mut i: usize = 0;
    assert(s.subrange(0, 0) =~= Seq::<TokenBalance>::empty());
    while i < n
        invariant
            i <= n == s.len() == g.len(),
            s == tokens@,
            g == signals@,
            total_value(s) <= MAX_AMOUNT,
            out@ == merged(s.subrange(0, i as int)),
            out_g@ == merged_signals(s.subrange(0, i as int), g.subrange(0, i as int)),
        decreases n - i,
    {
        let ghost p = s.subrange(0, i as int);
        let ghost q = s.subrange(0, i + 1);
        assert(q.drop_last() =~= p);
        assert(q.last() == s[i as int]);
        assert(g.subrange(0, i + 1).subrange(0, i as int) =~= g.subrange(0, i as int));
        proof {
            lemma_prefix_total(s, i + 1);
            lemma_prefix_total(s, i as int);
            lemma_merged(p, g.subrange(0, i as int));
            lemma_index_in(out@, s[i as int].token_address@, 0);
        }
        let a = &tokens[i].token_address;
        let mut k: usize = 0;
        while k < out.len()
            invariant
                k <= out@.len(),
                index_in(out@, a@, 0) == index_in(out@, a@, k as int),
            ensures
                k <= out@.len(),
                index_in(out@, a@, 0) == index_in(out@, a@, k as int),
                k < out@.len() ==> out@[k as int].token_address@ == a@,
            decreases out@.len() - k,
        {
            if out[k].token_address == *a {
                break;
            }
            k = k + 1;
        }
        let found = k < out.len();
        if !found {
            let t = &tokens[i];
            out.push(TokenBalance { token_address: a.clone(), amount: t.amount, value_usd: t.value_usd });
            out_g.push(signals[i]);
        } else {
            proof {
                lemma_value_at_most_total(out@, k as int);
            }
            let v = tokens[i].value_usd;
            let am = tokens[i].amount;
            let old_am = out[k].amount;
            out[k].value_usd = out[k].value_usd + v;
            out[k].amount = if old_am > u64::MAX - am { u64::MAX } else { old_am + am };
        }
        i = i + 1;
    }
    assert(s.subrange(0, n as int) =~= s);
    assert(g.subrange(0, n as int) =~= g);
    (out, out_g)
}

} // verus!
