use plain_ledger::amount::Amount;
use plain_ledger::balancer::{
    balance_transaction, balance_transactions, infer_posting, total_amount, total_commodities,
    BalanceFault,
};
use plain_ledger::model::{Comment, State, Transaction, UnbalancedPosting};

fn posting(line: usize, account: &str, value: Option<(&str, i64, i64)>) -> UnbalancedPosting {
    UnbalancedPosting {
        line,
        account: String::from(account),
        commodity: value.map(|v| String::from(v.0)),
        amount: value.map(|v| Amount::new(v.1, v.2).unwrap()),
        comments: vec![Comment { line: line + 1, comment: String::from("c") }],
    }
}

fn transaction(postings: Vec<UnbalancedPosting>) -> Transaction<UnbalancedPosting> {
    Transaction {
        line: 1,
        date: String::from("2023-01-01"),
        state: State::Cleared,
        code: Some(String::from("k")),
        description: String::from("d"),
        comments: vec![Comment { line: 1, comment: String::from("t") }],
        postings,
    }
}

#[test]
fn commodities_are_listed_once_in_order() {
    let t = transaction(vec![
        posting(2, "a", Some(("USD", 1, 1))),
        posting(3, "b", Some(("EUR", 1, 1))),
        posting(4, "c", None),
        posting(5, "d", Some(("USD", 1, 1))),
    ]);
    assert_eq!(total_commodities(&t), vec![String::from("USD"), String::from("EUR")]);
    assert!(total_commodities(&transaction(vec![posting(2, "a", None)])).is_empty());
}

#[test]
fn total_is_the_exact_sum() {
    let t = transaction(vec![
        posting(2, "a", Some(("USD", 1, 10))),
        posting(3, "b", Some(("USD", 2, 10))),
        posting(4, "c", None),
    ]);
    let s = total_amount(&t).unwrap();
    assert_eq!((s.numer(), s.denom()), (3, 10));
    let t = transaction(vec![
        posting(2, "a", Some(("USD", i64::MAX, 1))),
        posting(3, "b", Some(("USD", 1, 1))),
    ]);
    assert_eq!(total_amount(&t), None);
    let s = total_amount(&transaction(vec![])).unwrap();
    assert_eq!((s.numer(), s.denom()), (0, 1));
}

#[test]
fn inferred_posting_closes_the_transaction() {
    let t = transaction(vec![
        posting(2, "a", Some(("USD", 1, 3))),
        posting(3, "b", None),
        posting(4, "c", Some(("USD", 1, 6))),
    ]);
    let b = balance_transaction(&t).unwrap();
    assert_eq!(b.line, 1);
    assert_eq!(b.code, Some(String::from("k")));
    assert_eq!(b.comments.len(), 1);
    assert_eq!(b.postings.len(), 3);
    assert_eq!(b.postings[1].account, "b");
    assert_eq!(b.postings[1].commodity, "USD");
    assert_eq!((b.postings[1].amount.numer(), b.postings[1].amount.denom()), (-1, 2));
    assert_eq!(b.postings[1].comments[0].line, 4);
    let mut sum = Amount::zero();
    for p in &b.postings {
        sum = sum.checked_add(p.amount).unwrap();
    }
    assert_eq!((sum.numer(), sum.denom()), (0, 1));
}

#[test]
fn explicit_postings_are_carried_over_unchanged() {
    let t = transaction(vec![
        posting(2, "a", Some(("USD", 5, 1))),
        posting(3, "b", Some(("EUR", 7, 2))),
    ]);
    let b = balance_transaction(&t).unwrap();
    assert_eq!(b.postings[0].commodity, "USD");
    assert_eq!(b.postings[1].commodity, "EUR");
    assert_eq!((b.postings[1].amount.numer(), b.postings[1].amount.denom()), (7, 2));
}

#[test]
fn each_balance_fault_has_its_input() {
    let e = balance_transaction(&transaction(vec![posting(2, "a", None)])).unwrap_err();
    assert_eq!((e.line, e.message), (3, BalanceFault::NoCommodity.message()));
    let e = balance_transaction(&transaction(vec![
        posting(2, "a", Some(("USD", i64::MIN, 1))),
        posting(3, "b", None),
    ]))
    .unwrap_err();
    assert_eq!((e.line, e.message), (4, BalanceFault::Overflow.message()));
    let e = balance_transaction(&transaction(vec![
        posting(2, "a", Some(("USD", i64::MAX, 1))),
        posting(3, "b", Some(("USD", i64::MAX, 1))),
        posting(9, "c", None),
    ]))
    .unwrap_err();
    assert_eq!((e.line, e.message), (10, BalanceFault::Overflow.message()));
    let e = balance_transaction(&transaction(vec![
        posting(2, "a", None),
        posting(3, "b", Some(("USD", 1, 1))),
        posting(4, "c", Some(("EUR", 1, 1))),
        posting(5, "d", None),
    ]))
    .unwrap_err();
    assert_eq!((e.line, e.message), (3, BalanceFault::MultipleCommodities.message()));
    let e = balance_transaction(&transaction(vec![
        posting(2, "a", None),
        posting(3, "b", Some(("USD", 1, 1))),
        posting(4, "c", None),
        posting(5, "d", None),
    ]))
    .unwrap_err();
    assert_eq!((e.line, e.message), (5, BalanceFault::SecondNullAmount.message()));
    assert_eq!(
        BalanceFault::NoCommodity.message(),
        "No commodity in transaction with a null amount posting"
    );
    assert_eq!(
        BalanceFault::Overflow.message(),
        "Amount out of range in transaction with a null amount posting"
    );
}

#[test]
fn a_fault_leaves_the_output_as_it_was() {
    let good = transaction(vec![posting(2, "a", Some(("USD", 1, 1))), posting(3, "b", None)]);
    let bad = transaction(vec![posting(5, "a", None), posting(6, "b", None)]);
    let mut out = Vec::new();
    balance_transactions(&[good.clone()], &mut out).unwrap();
    assert_eq!(out.len(), 1);
    assert!(balance_transactions(&[good, bad], &mut out).is_err());
    assert_eq!(out.len(), 1);
}

#[test]
fn inference_from_given_results() {
    let p = posting(7, "a", None);
    let usd = vec![String::from("USD")];
    let b = infer_posting(&p, &usd, Some(Amount::new(3, 4).unwrap())).unwrap();
    assert_eq!(b.commodity, "USD");
    assert_eq!((b.amount.numer(), b.amount.denom()), (-3, 4));
    let e = infer_posting(&p, &usd, None).unwrap_err();
    assert_eq!((e.line, e.message), (8, BalanceFault::Overflow.message()));
    let e = infer_posting(&p, &Vec::new(), Some(Amount::zero())).unwrap_err();
    assert_eq!((e.line, e.message), (8, BalanceFault::NoCommodity.message()));
    let two = vec![String::from("USD"), String::from("EUR")];
    let e = infer_posting(&p, &two, None).unwrap_err();
    assert_eq!((e.line, e.message), (8, BalanceFault::MultipleCommodities.message()));
}
