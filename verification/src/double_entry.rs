use crate::amount::{lemma_neg_of, lemma_of_parts, lemma_sum_of};
use crate::balancer::{
    balanced, balanced_prefix, carried, commodities_of, has_null, inferred, lemma_prefix_fault,
    total_of, value_sum, BalanceFault,
};
use crate::model::{BalancedPostingView, BalancedView, UnbalancedPostingView, UnbalancedView};
use vstd::prelude::*;

verus! {

/// The postings from `from` up to `to` all state commodity and amount.
pub open spec fn explicit_between(postings: Seq<UnbalancedPostingView>, from: int, to: int) -> bool {
    forall|k: int| from <= k < to ==> (#[trigger] postings[k]).is_explicit()
}

/// Every posting has commodity and amount or neither, and a positive
/// denominator.
pub open spec fn postings_wf(postings: Seq<UnbalancedPostingView>) -> bool {
    forall|k: int| 0 <= k < postings.len() ==> (#[trigger] postings[k]).wf()
}

/// The exact sum of the amounts of the postings in commodity `c`.
pub open spec fn commodity_sum(postings: Seq<BalancedPostingView>, c: Seq<char>) -> real
    decreases postings.len(),
{
    if postings.len() == 0 {
        0real
    } else {
        commodity_sum(postings.drop_last(), c) + if postings.last().commodity == c {
            postings.last().amount.value()
        } else {
            0real
        }
    }
}

/// In every commodity the amounts of the transaction sum to zero.
pub open spec fn is_closed(t: BalancedView) -> bool {
    forall|c: Seq<char>| commodity_sum(t.postings, c) == 0real
}

/// A commodity that a posting names is among the commodities of the
/// transaction.
pub proof fn lemma_named_commodity(postings: Seq<UnbalancedPostingView>, k: int)
    requires
        0 <= k < postings.len(),
        postings[k].commodity is Some,
    ensures
        commodities_of(postings).contains(postings[k].commodity->0),
    decreases postings.len(),
{
    let before = commodities_of(postings.drop_last());
    let c = postings[k].commodity->0;
    if k < postings.len() - 1 {
        lemma_named_commodity(postings.drop_last(), k);
        let w = choose|w: int| 0 <= w < before.len() && before[w] == c;
        assert(commodities_of(postings)[w] == c);
    } else {
        if before.contains(c) {
        } else {
            assert(before.push(c)[before.len() as int] == c);
        }
    }
}

/// The commodities of a transaction are named by its postings, and none of
/// them is listed twice.
pub proof fn lemma_commodities_distinct(postings: Seq<UnbalancedPostingView>)
    ensures
        forall|w: int|
            0 <= w < commodities_of(postings).len() ==> exists|k: int|
                0 <= k < postings.len() && (#[trigger] postings[k]).commodity == Some(
                    #[trigger] commodities_of(postings)[w],
                ),
        forall|v: int, w: int|
            0 <= v < w < commodities_of(postings).len() ==> commodities_of(postings)[v]
                != commodities_of(postings)[w],
    decreases postings.len(),
{
    if postings.len() > 0 {
        let shorter = postings.drop_last();
        let before = commodities_of(shorter);
        let now = commodities_of(postings);
        lemma_commodities_distinct(shorter);
        assert forall|w: int| 0 <= w < now.len() implies exists|k: int|
            0 <= k < postings.len() && (#[trigger] postings[k]).commodity == Some(
                #[trigger] now[w],
            ) by {
            if w < before.len() {
                let k = choose|k: int|
                    0 <= k < shorter.len() && (#[trigger] shorter[k]).commodity == Some(before[w]);
                assert(postings[k] == shorter[k]);
                assert(now[w] == before[w]);
            } else {
                assert(postings[postings.len() - 1].commodity == Some(now[w]));
            }
        }
        assert forall|v: int, w: int| 0 <= v < w < now.len() implies now[v] != now[w] by {
            if w < before.len() {
                assert(now[v] == before[v] && now[w] == before[w]);
            } else {
                assert(now[v] == before[v]);
                assert(!before.contains(now[w]));
            }
        }
    }
}

/// No posting before `n` lacks commodity or amount.
pub proof fn lemma_no_null(postings: Seq<UnbalancedPostingView>, n: int)
    requires
        0 <= n <= postings.len(),
        explicit_between(postings, 0, n),
    ensures
        !has_null(postings.take(n)),
{
    if has_null(postings.take(n)) {
        let k = choose|k: int|
            0 <= k < postings.take(n).len() && !(#[trigger] postings.take(n)[k]).is_explicit();
        assert(postings.take(n)[k] == postings[k]);
    }
}

/// What a balanced prefix holds: as many postings as were read, the explicit
/// ones carried over, the one without an amount inferred, and no second one
/// without an amount.
pub proof fn lemma_prefix_shape(all: Seq<UnbalancedPostingView>, n: int)
    requires
        0 <= n <= all.len(),
        balanced_prefix(all, n) is Ok,
    ensures
        balanced_prefix(all, n)->Ok_0.len() == n,
        forall|k: int|
            0 <= k < n && (#[trigger] all[k]).is_explicit() ==> balanced_prefix(all, n)->Ok_0[k]
                == carried(all[k]),
        forall|k: int|
            0 <= k < n && !(#[trigger] all[k]).is_explicit() ==> Ok::<
                BalancedPostingView,
                crate::model::ErrorView,
            >(balanced_prefix(all, n)->Ok_0[k]) == inferred(
                all[k],
                commodities_of(all),
                total_of(all),
            ),
        forall|k: int, l: int|
            0 <= k < l < n ==> (#[trigger] all[k]).is_explicit() || (#[trigger] all[l]).is_explicit(),
    decreases n,
{
    if n > 0 {
        lemma_prefix_shape(all, n - 1);
        let posting = all[n - 1];
        if !posting.is_explicit() {
            assert forall|k: int| 0 <= k < n - 1 implies (#[trigger] all[k]).is_explicit() by {
                if !all[k].is_explicit() {
                    assert(all.take(n - 1)[k] == all[k]);
                }
            }
        }
    }
}

/// A run of explicit postings keeps a balanced prefix balanced.
pub proof fn lemma_carry_on(all: Seq<UnbalancedPostingView>, n: int, m: int)
    requires
        0 <= n <= m <= all.len(),
        balanced_prefix(all, n) is Ok,
        explicit_between(all, n, m),
    ensures
        balanced_prefix(all, m) is Ok,
    decreases m - n,
{
    if n < m {
        lemma_carry_on(all, n, m - 1);
        assert(all[m - 1].is_explicit());
    }
}

/// A transaction with two postings that lack an amount is never balanced.
pub proof fn two_null_amounts_never_balance(t: UnbalancedView, i: int, j: int)
    requires
        0 <= i < j < t.postings.len(),
        !t.postings[i].is_explicit(),
        !t.postings[j].is_explicit(),
    ensures
        balanced(t) is Err,
{
    if balanced_prefix(t.postings, t.postings.len() as int) is Ok {
        lemma_prefix_shape(t.postings, t.postings.len() as int);
        assert(t.postings[i].is_explicit() || t.postings[j].is_explicit());
    }
}

/// Where the first posting without an amount can be inferred, the next one
/// without an amount is reported as the second, at the line after it.
pub proof fn second_null_amount_is_reported(t: UnbalancedView, i: int, j: int)
    requires
        0 <= i < j < t.postings.len(),
        explicit_between(t.postings, 0, i),
        !t.postings[i].is_explicit(),
        explicit_between(t.postings, i + 1, j),
        !t.postings[j].is_explicit(),
        inferred(t.postings[i], commodities_of(t.postings), total_of(t.postings)) is Ok,
    ensures
        balanced(t) == Err::<BalancedView, crate::model::ErrorView>(
            BalanceFault::SecondNullAmount.at(t.postings[j]),
        ),
{
    let all = t.postings;
    lemma_carry_on(all, 0, i);
    lemma_no_null(all, i);
    assert(balanced_prefix(all, i + 1) is Ok);
    lemma_carry_on(all, i + 1, j);
    assert(has_null(all.take(j))) by {
        assert(all.take(j)[i] == all[i]);
    }
    assert(balanced_prefix(all, j + 1) == Err::<Seq<BalancedPostingView>, crate::model::ErrorView>(
        BalanceFault::SecondNullAmount.at(all[j]),
    ));
    lemma_prefix_fault(all, j + 1, all.len() as int);
}

/// A posting without an amount beside postings in two different commodities
/// is reported as ambiguous, at the line after it.
pub proof fn several_commodities_are_ambiguous(t: UnbalancedView, i: int, a: int, b: int)
    requires
        0 <= i < t.postings.len(),
        explicit_between(t.postings, 0, i),
        !t.postings[i].is_explicit(),
        0 <= a < t.postings.len(),
        0 <= b < t.postings.len(),
        t.postings[a].commodity is Some,
        t.postings[b].commodity is Some,
        t.postings[a].commodity != t.postings[b].commodity,
    ensures
        balanced(t) == Err::<BalancedView, crate::model::ErrorView>(
            BalanceFault::MultipleCommodities.at(t.postings[i]),
        ),
{
    let all = t.postings;
    let named = commodities_of(all);
    lemma_named_commodity(all, a);
    lemma_named_commodity(all, b);
    let v = choose|v: int| 0 <= v < named.len() && named[v] == all[a].commodity->0;
    let w = choose|w: int| 0 <= w < named.len() && named[w] == all[b].commodity->0;
    assert(v != w);
    lemma_carry_on(all, 0, i);
    lemma_no_null(all, i);
    assert(balanced_prefix(all, i + 1) == Err::<Seq<BalancedPostingView>, crate::model::ErrorView>(
        BalanceFault::MultipleCommodities.at(all[i]),
    ));
    lemma_prefix_fault(all, i + 1, all.len() as int);
}

/// Where every commodity that is named is `c`, and one is, the commodities of
/// the transaction are `c` alone.
pub proof fn lemma_sole_commodity(postings: Seq<UnbalancedPostingView>, c: Seq<char>)
    requires
        forall|k: int|
            0 <= k < postings.len() && (#[trigger] postings[k]).commodity is Some
                ==> postings[k].commodity == Some(c),
        exists|k: int| 0 <= k < postings.len() && (#[trigger] postings[k]).commodity == Some(c),
    ensures
        commodities_of(postings) == seq![c],
{
    let named = commodities_of(postings);
    let k = choose|k: int| 0 <= k < postings.len() && (#[trigger] postings[k]).commodity == Some(c);
    lemma_named_commodity(postings, k);
    lemma_commodities_distinct(postings);
    if named.len() > 1 {
        let k0 = choose|k: int|
            0 <= k < postings.len() && (#[trigger] postings[k]).commodity == Some(named[0]);
        let k1 = choose|k: int|
            0 <= k < postings.len() && (#[trigger] postings[k]).commodity == Some(named[1]);
        assert(named[0] == c && named[1] == c);
    }
    let w = choose|w: int| 0 <= w < named.len() && named[w] == c;
    assert(named =~= seq![c]);
}

/// A transaction with one posting without an amount, one commodity among the
/// others and a sum whose opposite the machine can form is balanced: the
/// posting gets that commodity and the opposite of the sum, the others are
/// carried over.
pub proof fn single_commodity_is_inferred(t: UnbalancedView, i: int, c: Seq<char>)
    requires
        0 <= i < t.postings.len(),
        explicit_between(t.postings, 0, i),
        !t.postings[i].is_explicit(),
        explicit_between(t.postings, i + 1, t.postings.len() as int),
        forall|k: int|
            0 <= k < t.postings.len() && (#[trigger] t.postings[k]).commodity is Some
                ==> t.postings[k].commodity == Some(c),
        exists|k: int|
            0 <= k < t.postings.len() && (#[trigger] t.postings[k]).commodity == Some(c),
        total_of(t.postings) is Some,
        total_of(t.postings)->0.neg_of() is Some,
    ensures
        balanced(t) is Ok,
        balanced(t)->Ok_0.postings.len() == t.postings.len(),
        balanced(t)->Ok_0.postings[i].commodity == c,
        balanced(t)->Ok_0.postings[i].amount == total_of(t.postings)->0.neg_of()->0,
        forall|k: int|
            0 <= k < t.postings.len() && k != i ==> balanced(t)->Ok_0.postings[k] == carried(
                #[trigger] t.postings[k],
            ),
{
    let all = t.postings;
    lemma_sole_commodity(all, c);
    lemma_carry_on(all, 0, i);
    lemma_no_null(all, i);
    assert(balanced_prefix(all, i + 1) is Ok);
    lemma_carry_on(all, i + 1, all.len() as int);
    lemma_prefix_shape(all, all.len() as int);
}

/// The sums over a prefix of a balanced transaction that had one posting
/// without an amount, at `i`: in the commodity `c` the amounts stated so far,
/// and the inferred amount once it is passed; in any other commodity nothing.
proof fn lemma_sum_prefix(
    all: Seq<UnbalancedPostingView>,
    out: Seq<BalancedPostingView>,
    i: int,
    c: Seq<char>,
    n: int,
)
    requires
        out.len() == all.len(),
        0 <= n <= all.len(),
        0 <= i < all.len(),
        all[i].amount is None,
        out[i].commodity == c,
        forall|k: int|
            0 <= k < all.len() && k != i ==> (#[trigger] all[k]).is_explicit() && out[k] == carried(
                all[k],
            ) && all[k].commodity == Some(c),
    ensures
        commodity_sum(out.take(n), c) == value_sum(all.take(n)) + if i < n {
            out[i].amount.value()
        } else {
            0real
        },
        forall|d: Seq<char>| d != c ==> commodity_sum(out.take(n), d) == 0real,
    decreases n,
{
    if n > 0 {
        lemma_sum_prefix(all, out, i, c, n - 1);
        assert(out.take(n).drop_last() =~= out.take(n - 1));
        assert(all.take(n).drop_last() =~= all.take(n - 1));
        assert(out.take(n).last() == out[n - 1]);
        assert(all.take(n).last() == all[n - 1]);
        if n - 1 != i {
            assert(all[n - 1].is_explicit());
        }
        assert forall|d: Seq<char>| d != c implies commodity_sum(out.take(n), d) == 0real by {
            assert(commodity_sum(out.take(n - 1), d) == 0real);
        }
    }
}

/// A sum that the machine forms of the amounts of postings is their exact
/// sum.
pub proof fn lemma_total_value(postings: Seq<UnbalancedPostingView>)
    requires
        postings_wf(postings),
        total_of(postings) is Some,
    ensures
        total_of(postings)->0.wf(),
        total_of(postings)->0.value() == value_sum(postings),
    decreases postings.len(),
{
    if postings.len() == 0 {
        lemma_of_parts(0, 1);
        assert((0int as real) / (1int as real) == 0real) by (nonlinear_arith);
    } else {
        let before = postings.drop_last();
        assert forall|k: int| 0 <= k < before.len() implies (#[trigger] before[k]).wf() by {
            assert(before[k] == postings[k]);
        }
        lemma_total_value(before);
        assert(postings[postings.len() - 1].wf());
        if let Some(a) = postings.last().amount {
            lemma_sum_of(total_of(before)->0, a);
        }
    }
}

/// A transaction that had a posting without an amount and was balanced sums
/// to zero in every commodity.
pub proof fn balanced_transaction_is_closed(t: UnbalancedView)
    requires
        postings_wf(t.postings),
        has_null(t.postings),
        balanced(t) is Ok,
    ensures
        is_closed(balanced(t)->Ok_0),
{
    let all = t.postings;
    let n = all.len() as int;
    let out = balanced(t)->Ok_0.postings;
    let i = choose|i: int| 0 <= i < all.len() && !(#[trigger] all[i]).is_explicit();
    lemma_prefix_shape(all, n);
    let named = commodities_of(all);
    assert(inferred(all[i], named, total_of(all)) is Ok);
    let c = named[0];
    let sum = total_of(all)->0;
    assert(all[i].wf());
    lemma_total_value(all);
    lemma_neg_of(sum);
    assert forall|k: int| 0 <= k < all.len() && k != i implies (#[trigger] all[k]).is_explicit()
        && out[k] == carried(all[k]) && all[k].commodity == Some(c) by {
        if k < i {
            assert(all[k].is_explicit() || all[i].is_explicit());
        } else {
            assert(all[i].is_explicit() || all[k].is_explicit());
        }
        lemma_named_commodity(all, k);
        let w = choose|w: int| 0 <= w < named.len() && named[w] == all[k].commodity->0;
        assert(w == 0);
    }
    lemma_sum_prefix(all, out, i, c, n);
    assert(out.take(n) =~= out);
    assert(all.take(n) =~= all);
}

} // verus!
