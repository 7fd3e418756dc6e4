use plain_ledger::model::{State, Token, Transaction, UnbalancedPosting};
use plain_ledger::parser::{parse, parse_unbalanced_transactions, ParseError, Parser};

fn text(s: &str) -> String {
    String::from(s)
}

fn header(line: usize) -> Vec<Token> {
    vec![
        Token::TransactionDate(line, text("2023-01-01")),
        Token::TransactionState(line, State::Cleared),
        Token::TransactionDescription(line, text("Groceries")),
    ]
}

fn parse_err(tokens: &[Token]) -> ParseError {
    let mut out: Vec<Transaction<UnbalancedPosting>> = Vec::new();
    let e = parse(tokens, &mut out).unwrap_err();
    assert!(out.is_empty());
    e
}

#[test]
fn transactions_are_appended_in_order() {
    let mut tokens = header(1);
    tokens.push(Token::PostingAccount(2, text("a")));
    tokens.push(Token::PostingCommodity(2, text("USD")));
    tokens.push(Token::PostingAmount(2, text("12.345")));
    tokens.push(Token::PostingAccount(3, text("b")));
    tokens.extend(header(5));
    tokens.insert(9, Token::TransactionCode(5, text("7")));
    let mut out = vec![Transaction {
        line: 99,
        date: text("old"),
        state: State::Uncleared,
        code: None,
        description: text("kept"),
        comments: Vec::new(),
        postings: Vec::<UnbalancedPosting>::new(),
    }];
    parse_unbalanced_transactions(&tokens, &mut out).unwrap();
    assert_eq!(out.len(), 3);
    assert_eq!(out[0].line, 99);
    assert_eq!(out[1].line, 1);
    assert_eq!(out[1].postings.len(), 2);
    assert_eq!(out[1].postings[0].line, 2);
    assert_eq!(out[1].postings[0].commodity, Some(text("USD")));
    let a = out[1].postings[0].amount.unwrap();
    assert_eq!((a.numer(), a.denom()), (2469, 200));
    assert_eq!(out[1].postings[1].commodity, None);
    assert_eq!(out[1].postings[1].amount, None);
    assert_eq!(out[2].line, 5);
    assert_eq!(out[2].code, Some(text("7")));
    assert!(out[2].postings.is_empty());
}

#[test]
fn each_parse_error_has_its_input() {
    assert_eq!(
        parse_err(&[Token::TransactionDate(1, text("2023-01-01"))]),
        ParseError::StateExpected
    );
    assert_eq!(
        parse_err(&[
            Token::TransactionDate(1, text("2023-01-01")),
            Token::TransactionState(1, State::Pending),
            Token::TransactionCode(1, text("c")),
        ]),
        ParseError::DescriptionExpected
    );
    let mut tokens = header(1);
    tokens.push(Token::PostingAccount(2, text("a")));
    tokens.push(Token::PostingCommodity(2, text("USD")));
    assert_eq!(parse_err(&tokens), ParseError::AmountNotFound);
    tokens.push(Token::PostingAccount(3, text("b")));
    assert_eq!(parse_err(&tokens), ParseError::NotAnAmount);
    tokens.pop();
    tokens.push(Token::PostingAmount(2, text("1,5")));
    assert_eq!(parse_err(&tokens), ParseError::InvalidAmount);
    tokens.pop();
    tokens.push(Token::PostingAmount(2, text("99999999999999999999")));
    assert_eq!(parse_err(&tokens), ParseError::AmountOverflow);
    assert_eq!(
        parse_err(&[Token::IndentedComment(1, text("x"))]),
        ParseError::CommentOutsideTransaction
    );
    assert_eq!(
        parse_err(&[Token::TransactionComment(1, text("x"))]),
        ParseError::CommentOutsideTransaction
    );
    assert_eq!(
        parse_err(&[Token::PostingAccount(1, text("a"))]),
        ParseError::PostingOutsideTransaction
    );
    assert_eq!(
        parse_err(&[Token::TransactionState(1, State::Cleared)]),
        ParseError::UnexpectedToken
    );
}

#[test]
fn parse_errors_are_reported_in_words() {
    let mut out: Vec<Transaction<UnbalancedPosting>> = Vec::new();
    let tokens = vec![
        Token::TransactionDate(1, text("2023-01-01")),
        Token::TransactionState(1, State::Cleared),
    ];
    assert_eq!(
        parse_unbalanced_transactions(&tokens, &mut out),
        Err(text("Parse Error : transaction description expected"))
    );
    assert_eq!(ParseError::NotAnAmount.message(), "not a posting amount");
    assert_eq!(ParseError::AmountNotFound.message(), "posting amount not found");
    assert_eq!(ParseError::InvalidAmount.message(), "invalid posting amount");
    assert_eq!(ParseError::AmountOverflow.message(), "posting amount out of range");
    assert_eq!(ParseError::UnexpectedToken.message(), "unexpected token");
    assert_eq!(
        ParseError::CommentOutsideTransaction.message(),
        "invalid position for comment"
    );
    assert_eq!(
        ParseError::PostingOutsideTransaction.message(),
        "invalid position for posting"
    );
}

#[test]
fn parser_steps_leave_other_tokens_unread() {
    let tokens = header(1);
    let mut parser = Parser::new(&tokens);
    parser.parse_posting().unwrap();
    parser.parse_transaction_comment().unwrap();
    parser.parse_indented_comment().unwrap();
    assert_eq!(parser.index, 0);
    parser.parse_transaction_header().unwrap();
    assert_eq!(parser.index, 3);
    assert_eq!(parser.transactions.len(), 1);
    parser.parse_transaction_header().unwrap();
    assert_eq!(parser.index, 3);
    assert_eq!(parser.parse_round(), Err(ParseError::UnexpectedToken));
}
