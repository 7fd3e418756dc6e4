use plain_ledger::balancer::balance_transactions;
use plain_ledger::journal::{read_journal, JournalError};
use plain_ledger::model::{State, Token, Transaction, UnbalancedPosting};
use plain_ledger::parser::parse_unbalanced_transactions;
use plain_ledger::tokenizer::tokenize;

fn parse_text(text: &str) -> Vec<Transaction<UnbalancedPosting>> {
    let tokens = tokenize(text).unwrap();
    let mut transactions = Vec::new();
    parse_unbalanced_transactions(&tokens, &mut transactions).unwrap();
    transactions
}

#[test]
fn groceries_are_balanced() {
    let text = "2023-01-01 * Groceries\n\tExpenses:Food  20.00 USD\n\tAssets:Cash\n";
    let unbalanced = parse_text(text);
    let mut balanced = Vec::new();
    balance_transactions(&unbalanced, &mut balanced).unwrap();
    assert_eq!(balanced.len(), 1);
    let t = &balanced[0];
    assert_eq!(t.line, 1);
    assert_eq!(t.date, "2023-01-01");
    assert_eq!(t.state, State::Cleared);
    assert_eq!(t.code, None);
    assert_eq!(t.description, "Groceries");
    assert_eq!(t.postings.len(), 2);
    assert_eq!(t.postings[0].account, "Expenses:Food");
    assert_eq!(t.postings[0].commodity, "USD");
    assert_eq!((t.postings[0].amount.numer(), t.postings[0].amount.denom()), (20, 1));
    assert_eq!(t.postings[1].account, "Assets:Cash");
    assert_eq!(t.postings[1].commodity, "USD");
    assert_eq!((t.postings[1].amount.numer(), t.postings[1].amount.denom()), (-20, 1));
}

#[test]
fn groceries_through_read_journal() {
    let text = "2023-01-01 * Groceries\n\tExpenses:Food  20.00 USD\n\tAssets:Cash\n";
    let balanced = read_journal(text).unwrap();
    assert_eq!(balanced.len(), 1);
    assert_eq!(balanced[0].postings[1].commodity, "USD");
    assert_eq!(balanced[0].postings[1].amount.numer(), -20);
}

#[test]
fn second_null_amount_is_refused() {
    let text = "2023-01-01 * Groceries\n\tExpenses:Food  20.00 USD\n\tAssets:Cash\n\tAssets:Bank\n";
    let unbalanced = parse_text(text);
    let mut balanced = Vec::new();
    let e = balance_transactions(&unbalanced, &mut balanced).unwrap_err();
    assert_eq!(e.message, "Only one posting with null amount allowed per transaction");
    assert_eq!(e.line, 5);
    assert!(balanced.is_empty());
}

#[test]
fn several_commodities_are_refused() {
    let text = "2023-01-01 * Trip\n  Expenses:Food  10.00 USD\n  Expenses:Transport  5.00 EUR\n  Assets:Cash\n";
    let unbalanced = parse_text(text);
    let mut balanced = Vec::new();
    let e = balance_transactions(&unbalanced, &mut balanced).unwrap_err();
    assert_eq!(
        e.message,
        "Multiple commodities in transaction with a null amount posting not allowed"
    );
    assert_eq!(e.line, 5);
    match read_journal(text) {
        Err(JournalError::Balance(e)) => assert_eq!(e.line, 5),
        other => panic!("unexpected {:?}", other),
    }
}

#[test]
fn header_without_state_token_is_refused() {
    let tokens = vec![
        Token::TransactionDate(1, String::from("2023-01-01")),
        Token::TransactionDescription(1, String::from("Groceries")),
    ];
    let mut transactions = Vec::new();
    let e = parse_unbalanced_transactions(&tokens, &mut transactions).unwrap_err();
    assert_eq!(e, "Parse Error : transaction state expected");
    assert!(transactions.is_empty());
}

#[test]
fn header_without_description_is_refused() {
    let e = tokenize("2023-01-01 *\n").unwrap_err();
    assert_eq!(e.line, 1);
    assert_eq!(e.message, "transaction description expected");
    assert!(read_journal("2023-01-01\n  a  1 USD\n").is_err());
}

#[test]
fn comments_go_to_their_posting() {
    let text = "2023-01-01 ! (42) Rent ; monthly\n  ; for the flat\n  Expenses:Rent  USD 700.50 ; first\n  ; note\n  ; again\n  Assets:Bank\n  ; paid\n";
    let unbalanced = parse_text(text);
    assert_eq!(unbalanced.len(), 1);
    let t = &unbalanced[0];
    assert_eq!(t.state, State::Pending);
    assert_eq!(t.code, Some(String::from("42")));
    assert_eq!(t.description, "Rent");
    let texts = |cs: &Vec<plain_ledger::model::Comment>| {
        cs.iter().map(|c| (c.line, c.comment.clone())).collect::<Vec<_>>()
    };
    assert_eq!(
        texts(&t.comments),
        vec![(1, String::from("monthly")), (2, String::from("for the flat"))]
    );
    assert_eq!(t.postings.len(), 2);
    assert_eq!(
        texts(&t.postings[0].comments),
        vec![(3, String::from("first")), (4, String::from("note")), (5, String::from("again"))]
    );
    assert_eq!(texts(&t.postings[1].comments), vec![(7, String::from("paid"))]);
    assert_eq!(t.postings[0].commodity, Some(String::from("USD")));
    let a = t.postings[0].amount.unwrap();
    assert_eq!((a.numer(), a.denom()), (1401, 2));
    let mut balanced = Vec::new();
    balance_transactions(&unbalanced, &mut balanced).unwrap();
    assert_eq!(texts(&balanced[0].postings[0].comments).len(), 3);
    assert_eq!(texts(&balanced[0].postings[1].comments), vec![(7, String::from("paid"))]);
    assert_eq!(texts(&balanced[0].comments).len(), 2);
    let b = balanced[0].postings[1].amount;
    assert_eq!((b.numer(), b.denom()), (-1401, 2));
}

#[test]
fn each_stage_reports_its_failure() {
    let e = read_journal("2023-01-01 * x\n  a  1 USD\n\n2023-01-02 * (7 y\n").unwrap_err();
    assert_eq!(e.line(), Some(4));
    assert_eq!(e.message(), "Tokenize Error : transaction code not closed");
    let e = read_journal("2023-01-01 * x\n  a  USD 1,5\n").unwrap_err();
    assert_eq!(e.line(), None);
    assert_eq!(e.message(), "Parse Error : invalid posting amount");
    let e = read_journal("  ; early\n2023-01-01 * x\n").unwrap_err();
    assert_eq!(e.message(), "Parse Error : invalid position for comment");
    let e = read_journal("2023-01-01 * x\n  a\n  b\n").unwrap_err();
    assert_eq!(e.line(), Some(3));
    assert_eq!(e.message(), "Balance Error : No commodity in transaction with a null amount posting");
    assert!(read_journal("").unwrap().is_empty());
}

#[test]
fn transactions_keep_their_order() {
    let text = "2023-01-01 * first\n  a  1 USD\n  b\n2023-01-02 ! second\n  c  -2.5 EUR\n  d\n";
    let balanced = read_journal(text).unwrap();
    assert_eq!(balanced.len(), 2);
    assert_eq!(balanced[0].description, "first");
    assert_eq!(balanced[1].description, "second");
    assert_eq!(balanced[1].line, 4);
    assert_eq!(balanced[1].postings[1].commodity, "EUR");
    let a = balanced[1].postings[1].amount;
    assert_eq!((a.numer(), a.denom()), (5, 2));
}
