use crate::amount::Amount;
use crate::double_entry::{
    balanced_transaction_is_closed, is_closed, lemma_commodities_distinct, lemma_named_commodity,
    postings_wf,
};
use crate::model::{
    outcome, BalancedPosting, BalancedPostingView, BalancedView, Error, ErrorView,
    Transaction, TransactionView, UnbalancedPosting, UnbalancedPostingView, UnbalancedView,
};
use vstd::prelude::*;
use vstd::string::StringExecFns;

verus! {

/// Why a transaction cannot be balanced.
#[derive(Clone, Copy, Debug, PartialEq, Eq, Structural)]
pub enum BalanceFault {
    /// A second posting without an amount.
    SecondNullAmount,
    /// A posting without an amount beside postings in several commodities.
    MultipleCommodities,
    /// A posting without an amount and no posting that names a commodity.
    NoCommodity,
    /// The amount to infer does not fit the exact fractions of the machine.
    Overflow,
}

impl BalanceFault {
    /// The words that describe the fault.
    pub open spec fn text(self) -> Seq<char> {
        match self {
            BalanceFault::SecondNullAmount => "Only one posting with null amount allowed per transaction"@,
            BalanceFault::MultipleCommodities => "Multiple commodities in transaction with a null amount posting not allowed"@,
            BalanceFault::NoCommodity => "No commodity in transaction with a null amount posting"@,
            BalanceFault::Overflow => "Amount out of range in transaction with a null amount posting"@,
        }
    }

    /// The words that describe the fault.
    pub fn message(self) -> (r: String)
        ensures
            r@ == self.text(),
    {
        match self {
            BalanceFault::SecondNullAmount => String::from_str(
                "Only one posting with null amount allowed per transaction",
            ),
            BalanceFault::MultipleCommodities => String::from_str(
                "Multiple commodities in transaction with a null amount posting not allowed",
            ),
            BalanceFault::NoCommodity => String::from_str(
                "No commodity in transaction with a null amount posting",
            ),
            BalanceFault::Overflow => String::from_str(
                "Amount out of range in transaction with a null amount posting",
            ),
        }
    }

    /// The fault as it is reported for `posting`: at the line after it.
    pub open spec fn at(self, posting: UnbalancedPostingView) -> ErrorView {
        ErrorView { line: (posting.line + 1) as usize, message: self.text() }
    }

    /// The fault as it is reported for a posting on `line`: at the line
    /// after it.
    pub fn report(self, line: usize) -> (r: Error)
        requires
            line < usize::MAX,
        ensures
            r.deep_view() == (ErrorView { line: (line + 1) as usize, message: self.text() }),
    {
        Error { line: line + 1, message: self.message() }
    }
}

/// The commodities that the postings name, each once, in the order in which
/// they first appear.
pub open spec fn commodities_of(postings: Seq<UnbalancedPostingView>) -> Seq<Seq<char>>
    decreases postings.len(),
{
    if postings.len() == 0 {
        Seq::empty()
    } else {
        let before = commodities_of(postings.drop_last());
        match postings.last().commodity {
            Some(c) => if before.contains(c) {
                before
            } else {
                before.push(c)
            },
            None => before,
        }
    }
}

/// The sum of the amounts that the postings state, added from the first to
/// the last as the machine adds them; `None` once an addition overflows.
pub open spec fn total_of(postings: Seq<UnbalancedPostingView>) -> Option<Amount>
    decreases postings.len(),
{
    if postings.len() == 0 {
        Some(Amount::of_parts(0, 1))
    } else {
        match total_of(postings.drop_last()) {
            None => None,
            Some(sum) => match postings.last().amount {
                Some(a) => sum.sum_of(a),
                None => Some(sum),
            },
        }
    }
}

/// The exact sum of the amounts that the postings state.
pub open spec fn value_sum(postings: Seq<UnbalancedPostingView>) -> real
    decreases postings.len(),
{
    if postings.len() == 0 {
        0real
    } else {
        value_sum(postings.drop_last()) + match postings.last().amount {
            Some(a) => a.value(),
            None => 0real,
        }
    }
}

/// A posting that states commodity and amount, carried over.
pub open spec fn carried(posting: UnbalancedPostingView) -> BalancedPostingView
    recommends
        posting.is_explicit(),
{
    BalancedPostingView {
        account: posting.account,
        commodity: posting.commodity->0,
        amount: posting.amount->0,
        comments: posting.comments,
    }
}

/// What stands for a posting without an amount, given the commodities of its
/// transaction and the sum of its amounts: the one commodity, and the
/// opposite of the sum.
pub open spec fn inferred(
    posting: UnbalancedPostingView,
    commodities: Seq<Seq<char>>,
    total: Option<Amount>,
) -> Result<BalancedPostingView, ErrorView> {
    if commodities.len() > 1 {
        Err(BalanceFault::MultipleCommodities.at(posting))
    } else if commodities.len() == 0 {
        Err(BalanceFault::NoCommodity.at(posting))
    } else {
        match total {
            None => Err(BalanceFault::Overflow.at(posting)),
            Some(sum) => match sum.neg_of() {
                None => Err(BalanceFault::Overflow.at(posting)),
                Some(opposite) => Ok(
                    BalancedPostingView {
                        account: posting.account,
                        commodity: commodities[0],
                        amount: opposite,
                        comments: posting.comments,
                    },
                ),
            },
        }
    }
}

/// One of the postings lacks commodity or amount.
pub open spec fn has_null(postings: Seq<UnbalancedPostingView>) -> bool {
    exists|i: int| 0 <= i < postings.len() && !(#[trigger] postings[i]).is_explicit()
}

/// The first `n` postings balanced in source order: explicit ones are carried
/// over, the first without an amount is inferred from the whole transaction,
/// a second one is a fault.
pub open spec fn balanced_prefix(postings: Seq<UnbalancedPostingView>, n: int) -> Result<
    Seq<BalancedPostingView>,
    ErrorView,
>
    decreases n,
{
    if n <= 0 {
        Ok(Seq::empty())
    } else {
        match balanced_prefix(postings, n - 1) {
            Err(e) => Err(e),
            Ok(done) => {
                let posting = postings[n - 1];
                if posting.is_explicit() {
                    Ok(done.push(carried(posting)))
                } else if has_null(postings.take(n - 1)) {
                    Err(BalanceFault::SecondNullAmount.at(posting))
                } else {
                    match inferred(posting, commodities_of(postings), total_of(postings)) {
                        Err(e) => Err(e),
                        Ok(b) => Ok(done.push(b)),
                    }
                }
            },
        }
    }
}

/// The transaction with its postings balanced, or the first fault.
pub open spec fn balanced(t: UnbalancedView) -> Result<BalancedView, ErrorView> {
    match balanced_prefix(t.postings, t.postings.len() as int) {
        Err(e) => Err(e),
        Ok(postings) => Ok(
            TransactionView {
                line: t.line,
                date: t.date,
                state: t.state,
                code: t.code,
                description: t.description,
                comments: t.comments,
                postings,
            },
        ),
    }
}

/// The first `n` transactions balanced one after the other, or the first
/// fault.
pub open spec fn balanced_upto(ts: Seq<UnbalancedView>, n: int) -> Result<
    Seq<BalancedView>,
    ErrorView,
>
    decreases n,
{
    if n <= 0 {
        Ok(Seq::empty())
    } else {
        match balanced_upto(ts, n - 1) {
            Err(e) => Err(e),
            Ok(done) => match balanced(ts[n - 1]) {
                Err(e) => Err(e),
                Ok(b) => Ok(done.push(b)),
            },
        }
    }
}

/// The transactions balanced one after the other, or the first fault.
pub open spec fn balanced_all(ts: Seq<UnbalancedView>) -> Result<Seq<BalancedView>, ErrorView> {
    balanced_upto(ts, ts.len() as int)
}

/// Every posting stands on a line whose successor is a line number.
pub open spec fn lines_fit(ts: Seq<UnbalancedView>) -> bool {
    forall|i: int, j: int|
        0 <= i < ts.len() && 0 <= j < ts[i].postings.len() ==> (#[trigger] ts[i].postings[j]).line
            < usize::MAX
}

/// A fault in a prefix of the postings is the fault of every longer prefix.
pub proof fn lemma_prefix_fault(postings: Seq<UnbalancedPostingView>, n: int, m: int)
    requires
        0 <= n <= m,
        balanced_prefix(postings, n) is Err,
    ensures
        balanced_prefix(postings, m) == balanced_prefix(postings, n),
    decreases m - n,
{
    if n < m {
        lemma_prefix_fault(postings, n, m - 1);
    }
}

/// As many transactions come out as went in.
pub proof fn lemma_upto_len(ts: Seq<UnbalancedView>, n: int)
    requires
        0 <= n,
        balanced_upto(ts, n) is Ok,
    ensures
        balanced_upto(ts, n)->Ok_0.len() == n,
    decreases n,
{
    if n > 0 {
        lemma_upto_len(ts, n - 1);
    }
}

/// A fault among the first transactions is the fault of every longer run.
pub proof fn lemma_upto_fault(ts: Seq<UnbalancedView>, n: int, m: int)
    requires
        0 <= n <= m,
        balanced_upto(ts, n) is Err,
    ensures
        balanced_upto(ts, m) == balanced_upto(ts, n),
    decreases m - n,
{
    if n < m {
        lemma_upto_fault(ts, n, m - 1);
    }
}

/// Whether `text` is one of `items`.
fn holds_text(items: &Vec<String>, text: &String) -> (r: bool)
    ensures
        r == items.deep_view().contains(text@),
{
    let mut i: usize = 0;
    while i < items.len()
        invariant
            i <= items.len(),
            forall|k: int| 0 <= k < i ==> items[k]@ != text@,
        decreases items.len() - i,
    {
        if items[i] == *text {
            assert(items.deep_view()[i as int] == text@);
            return true;
        }
        i += 1;
    }
    false
}

/// The commodities that the postings of `transaction` name, each once, in the
/// order in which they first appear.
pub fn total_commodities(transaction: &Transaction<UnbalancedPosting>) -> (r: Vec<String>)
    ensures
        r.deep_view() == commodities_of(transaction.deep_view().postings),
        forall|v: int, w: int| 0 <= v < w < r.len() ==> r[v]@ != r[w]@,
        forall|c: Seq<char>|
            r.deep_view().contains(c) <==> exists|k: int|
                0 <= k < transaction.postings.len() && (
                #[trigger] transaction.deep_view().postings[k]).commodity == Some(c),
{
    let ghost all = transaction.deep_view().postings;
    proof {
        let named = commodities_of(all);
        lemma_commodities_distinct(all);
        assert forall|c: Seq<char>|
            named.contains(c) <==> exists|k: int|
                0 <= k < all.len() && (#[trigger] all[k]).commodity == Some(c) by {
            if named.contains(c) {
                let w = choose|w: int| 0 <= w < named.len() && named[w] == c;
                let k = choose|k: int|
                    0 <= k < all.len() && (#[trigger] all[k]).commodity == Some(named[w]);
                assert(all[k].commodity == Some(c));
            }
            if exists|k: int| 0 <= k < all.len() && (#[trigger] all[k]).commodity == Some(c) {
                let k = choose|k: int| 0 <= k < all.len() && (#[trigger] all[k]).commodity == Some(c);
                lemma_named_commodity(all, k);
            }
        }
    }
    let mut out: Vec<String> = Vec::new();
    let mut i: usize = 0;
    assert(out.deep_view() =~= commodities_of(all.take(0)));
    while i < transaction.postings.len()
        invariant
            i <= transaction.postings.len(),
            all == transaction.deep_view().postings,
            out.deep_view() == commodities_of(all.take(i as int)),
        decreases transaction.postings.len() - i,
    {
        proof {
            assert(all.take(i + 1).drop_last() =~= all.take(i as int));
            assert(all.take(i + 1).last() == transaction.postings[i as int].deep_view());
        }
        let ghost before = out.deep_view();
        match &transaction.postings[i].commodity {
            Some(c) => {
                if !holds_text(&out, c) {
                    out.push(c.clone());
                    assert(out.deep_view() =~= before.push(c@));
                }
            },
            None => {},
        }
        i += 1;
    }
    assert(all.take(all.len() as int) =~= all);
    assert forall|v: int, w: int| 0 <= v < w < out.len() implies out[v]@ != out[w]@ by {
        assert(out.deep_view()[v] == out[v]@ && out.deep_view()[w] == out[w]@);
    }
    out
}

/// The sum of the amounts that the postings of `transaction` state, or
/// `None` where an addition overflows.
///
/// A sum that comes back is exact.
pub fn total_amount(transaction: &Transaction<UnbalancedPosting>) -> (r: Option<Amount>)
    ensures
        r == total_of(transaction.deep_view().postings),
        r matches Some(sum) ==> sum.wf() && sum.value() == value_sum(
            transaction.deep_view().postings,
        ),
{
    let ghost all = transaction.deep_view().postings;
    let mut sum: Option<Amount> = Some(Amount::zero());
    let mut i: usize = 0;
    while i < transaction.postings.len()
        invariant
            i <= transaction.postings.len(),
            all == transaction.deep_view().postings,
            sum == total_of(all.take(i as int)),
            sum matches Some(s) ==> s.wf() && s.value() == value_sum(all.take(i as int)),
        decreases transaction.postings.len() - i,
    {
        proof {
            assert(all.take(i + 1).drop_last() =~= all.take(i as int));
            assert(all.take(i + 1).last() == transaction.postings[i as int].deep_view());
        }
        sum =
        match sum {
            None => None,
            Some(s) => match transaction.postings[i].amount {
                Some(a) => s.checked_add(a),
                None => Some(s),
            },
        };
        i += 1;
    }
    assert(all.take(all.len() as int) =~= all);
    sum
}

/// A posting that states commodity and amount, carried over.
fn carry_posting(posting: &UnbalancedPosting) -> (r: Option<BalancedPosting>)
    ensures
        r is Some <==> posting.deep_view().is_explicit(),
        r matches Some(b) ==> b.deep_view() == carried(posting.deep_view()),
{
    match (&posting.commodity, posting.amount) {
        (Some(commodity), Some(amount)) => Some(
            BalancedPosting {
                account: posting.account.clone(),
                commodity: commodity.clone(),
                amount,
                comments: crate::model::copy_comments(&posting.comments),
            },
        ),
        _ => None,
    }
}

/// What stands for `posting`, which lacks commodity or amount, in a
/// transaction that names `commodities` and whose amounts sum to `total`.
///
/// With one commodity and a sum whose opposite exists, the posting gets that
/// commodity and that opposite. Otherwise the fault is reported for the line
/// after the posting: several commodities, none, or an overflow (`total` is
/// `None`, or the sum has no opposite).
pub fn infer_posting(
    posting: &UnbalancedPosting,
    commodities: &Vec<String>,
    total: Option<Amount>,
) -> (r: Result<BalancedPosting, Error>)
    requires
        posting.line < usize::MAX,
    ensures
        outcome(r) == inferred(posting.deep_view(), commodities.deep_view(), total),
{
    if commodities.len() > 1 {
        return Err(BalanceFault::MultipleCommodities.report(posting.line));
    }
    if commodities.len() == 0 {
        return Err(BalanceFault::NoCommodity.report(posting.line));
    }
    let sum = match total {
        None => {
            return Err(BalanceFault::Overflow.report(posting.line));
        },
        Some(sum) => sum,
    };
    match sum.checked_neg() {
        None => Err(BalanceFault::Overflow.report(posting.line)),
        Some(opposite) => Ok(
            BalancedPosting {
                account: posting.account.clone(),
                commodity: commodities[0].clone(),
                amount: opposite,
                comments: crate::model::copy_comments(&posting.comments),
            },
        ),
    }
}

/// The transaction with every posting balanced.
///
/// Postings that state commodity and amount are carried over. The first
/// posting that lacks them gets the one commodity of the transaction and the
/// opposite of the sum of its amounts; a second such posting is a fault.
pub fn balance_transaction(transaction: &Transaction<UnbalancedPosting>) -> (r: Result<
    Transaction<BalancedPosting>,
    Error,
>)
    requires
        forall|j: int|
            0 <= j < transaction.postings.len() ==> (#[trigger] transaction.postings[j]).line
                < usize::MAX,
    ensures
        outcome(r) == balanced(transaction.deep_view()),
        r matches Ok(b) ==> (has_null(transaction.deep_view().postings) && postings_wf(
            transaction.deep_view().postings,
        ) ==> is_closed(b.deep_view())),
{
    let ghost all = transaction.deep_view().postings;
    let mut postings: Vec<BalancedPosting> = Vec::new();
    let mut inferred_one = false;

    let mut i: usize = 0;
    assert(postings.deep_view() =~= Seq::empty());
    while i < transaction.postings.len()
        invariant
            i <= transaction.postings.len(),
            all == transaction.deep_view().postings,
            forall|j: int|
                0 <= j < transaction.postings.len() ==> (#[trigger] transaction.postings[j]).line
                    < usize::MAX,
            balanced_prefix(all, i as int) == Ok::<Seq<BalancedPostingView>, ErrorView>(
                postings.deep_view(),
            ),
            inferred_one == has_null(all.take(i as int)),
            postings.len() == i,
        decreases transaction.postings.len() - i,
    {
        let posting = &transaction.postings[i];
        let ghost done = postings.deep_view();
        proof {
            assert(all[i as int] == posting.deep_view());
            assert(has_null(all.take(i + 1)) == (has_null(all.take(i as int))
                || !posting.deep_view().is_explicit())) by {
                if has_null(all.take(i as int)) {
                    let k = choose|k: int|
                        0 <= k < all.take(i as int).len() && !(#[trigger] all.take(
                            i as int,
                        )[k]).is_explicit();
                    assert(all.take(i + 1)[k] == all.take(i as int)[k]);
                }
                if !posting.deep_view().is_explicit() {
                    assert(all.take(i + 1)[i as int] == posting.deep_view());
                }
                if has_null(all.take(i + 1)) {
                    let k = choose|k: int|
                        0 <= k < all.take(i + 1).len() && !(#[trigger] all.take(
                            i + 1,
                        )[k]).is_explicit();
                    if k < i {
                        assert(all.take(i as int)[k] == all.take(i + 1)[k]);
                    }
                }
            }
        }
        match carry_posting(posting) {
            Some(b) => {
                postings.push(b);
            },
            None => {
                if inferred_one {
                    proof {
                        lemma_prefix_fault(all, i + 1, all.len() as int);
                    }
                    return Err(BalanceFault::SecondNullAmount.report(posting.line));
                }
                let commodities = total_commodities(transaction);
                let total = total_amount(transaction);
                match infer_posting(posting, &commodities, total) {
                    Err(e) => {
                        proof {
                            lemma_prefix_fault(all, i + 1, all.len() as int);
                        }
                        return Err(e);
                    },
                    Ok(b) => {
                        postings.push(b);
                    },
                }
                inferred_one = true;
            },
        }
        proof {
            assert(postings.deep_view() =~= done.push(postings[i as int].deep_view()));
        }
        i += 1;
    }
    proof {
        assert(all.take(all.len() as int) =~= all);
        if inferred_one && postings_wf(all) {
            balanced_transaction_is_closed(transaction.deep_view());
        }
    }
    Ok(
        Transaction {
            line: transaction.line,
            date: transaction.date.clone(),
            state: transaction.state,
            code: crate::model::copy_text(&transaction.code),
            description: transaction.description.clone(),
            comments: crate::model::copy_comments(&transaction.comments),
            postings,
        },
    )
}

/// Balances `unbalanced_transactions` one after the other and appends the
/// results to `balanced_transactions`.
///
/// The first fault ends the work; `balanced_transactions` then keeps what it
/// held.
pub fn balance_transactions(
    unbalanced_transactions: &[Transaction<UnbalancedPosting>],
    balanced_transactions: &mut Vec<Transaction<BalancedPosting>>,
) -> (r: Result<(), Error>)
    requires
        lines_fit(unbalanced_transactions.deep_view()),
    ensures
        match balanced_all(unbalanced_transactions.deep_view()) {
            Ok(done) => r is Ok && final(balanced_transactions).deep_view() == old(balanced_transactions).deep_view() + done,
            Err(e) => r is Err && r->Err_0.deep_view() == e && final(balanced_transactions).deep_view() == old(balanced_transactions).deep_view(),
        },
        r is Ok ==> forall|k: int|
            0 <= k < unbalanced_transactions.len() && has_null(
                (#[trigger] unbalanced_transactions.deep_view()[k]).postings,
            ) && postings_wf(unbalanced_transactions.deep_view()[k].postings) ==> is_closed(
                final(balanced_transactions).deep_view()[old(balanced_transactions).len() + k],
            ),
{
    let ghost all = unbalanced_transactions.deep_view();
    let mut out: Vec<Transaction<BalancedPosting>> = Vec::new();
    let mut i: usize = 0;
    assert(out.deep_view() =~= Seq::empty());
    while i < unbalanced_transactions.len()
        invariant
            i <= unbalanced_transactions.len(),
            all == unbalanced_transactions.deep_view(),
            lines_fit(all),
            balanced_upto(all, i as int) == Ok::<Seq<BalancedView>, ErrorView>(out.deep_view()),
            out.len() == i,
            forall|k: int|
                0 <= k < i && has_null((#[trigger] all[k]).postings) && postings_wf(all[k].postings)
                    ==> is_closed(out.deep_view()[k]),
        decreases unbalanced_transactions.len() - i,
    {
        let transaction = &unbalanced_transactions[i];
        let ghost done = out.deep_view();
        proof {
            assert(all[i as int] == transaction.deep_view());
            assert forall|j: int| 0 <= j < transaction.postings.len() implies (
            #[trigger] transaction.postings[j]).line < usize::MAX by {
                assert(all[i as int].postings[j] == transaction.postings[j].deep_view());
            }
        }
        match balance_transaction(transaction) {
            Err(e) => {
                proof {
                    lemma_upto_fault(all, i + 1, all.len() as int);
                }
                return Err(e);
            },
            Ok(b) => {
                out.push(b);
                proof {
                    assert(out.deep_view() =~= done.push(b.deep_view()));
                }
            },
        }
        i += 1;
    }
    let ghost appended = old(balanced_transactions).deep_view() + out.deep_view();
    balanced_transactions.append(&mut out);
    proof {
        assert(balanced_transactions.deep_view() =~= appended);
    }
    Ok(())
}

} // verus!
