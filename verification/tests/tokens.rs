use plain_ledger::model::{State, Token};
use plain_ledger::tokenizer::{
    tokenize, tokenize_comment, tokenize_indented_comment, tokenize_journal_comment, tokenize_line,
    Tokenizer,
};

fn kinds(tokens: &[Token]) -> Vec<String> {
    tokens.iter().map(|t| format!("{:?}", t)).collect()
}

fn cursor(line: &str, position: usize) -> Tokenizer {
    Tokenizer {
        line_characters: line.chars().collect(),
        line_index: 6,
        line_position: position,
        tokens: Vec::new(),
    }
}

#[test]
fn header_with_every_part() {
    let tokens = tokenize("2023/01/02 ! (#12) Dinner out  ;  with friends").unwrap();
    assert_eq!(
        kinds(&tokens),
        vec![
            "TransactionDate(1, \"2023/01/02\")",
            "TransactionState(1, Pending)",
            "TransactionCode(1, \"#12\")",
            "TransactionDescription(1, \"Dinner out\")",
            "TransactionComment(1, \" with friends\")",
        ]
    );
}

#[test]
fn header_without_marker_is_uncleared() {
    let tokens = tokenize("2023-01-02 Dinner\n").unwrap();
    assert_eq!(tokens.len(), 3);
    match &tokens[1] {
        Token::TransactionState(1, State::Uncleared) => {}
        other => panic!("unexpected {:?}", other),
    }
    match &tokens[2] {
        Token::TransactionDescription(1, d) => assert_eq!(d, "Dinner"),
        other => panic!("unexpected {:?}", other),
    }
}

#[test]
fn blank_lines_and_margin_comments_give_no_token() {
    let tokens = tokenize("\n   \n; a journal comment\n\t\n").unwrap();
    assert!(tokens.is_empty());
    assert!(tokenize("").unwrap().is_empty());
}

#[test]
fn posting_with_either_order_of_amount_and_commodity() {
    let tokens = tokenize("2023-01-02 * x\r\n  Assets:Cash Box  -5.25 EUR\r\n  Income  EUR 5.25\r\n")
        .unwrap();
    assert_eq!(
        kinds(&tokens[3..]),
        vec![
            "PostingAccount(2, \"Assets:Cash Box\")",
            "PostingCommodity(2, \"EUR\")",
            "PostingAmount(2, \"-5.25\")",
            "PostingAccount(3, \"Income\")",
            "PostingCommodity(3, \"EUR\")",
            "PostingAmount(3, \"5.25\")",
        ]
    );
}

#[test]
fn posting_comment_on_its_line() {
    let tokens = tokenize("2023-01-02 * x\n  Assets:Cash ; petty\n  Income  1 USD;tip\n").unwrap();
    assert_eq!(
        kinds(&tokens[3..]),
        vec![
            "PostingAccount(2, \"Assets:Cash\")",
            "IndentedComment(2, \"petty\")",
            "PostingAccount(3, \"Income\")",
            "PostingCommodity(3, \"USD\")",
            "PostingAmount(3, \"1\")",
            "IndentedComment(3, \"tip\")",
        ]
    );
}

#[test]
fn tokenizer_faults_name_their_line() {
    let e = tokenize("2023-01-02 * x\n  Assets:Cash  USD\n").unwrap_err();
    assert_eq!((e.line, e.message.as_str()), (2, "posting commodity and amount must come together"));
    let e = tokenize("\nJanuary * x\n").unwrap_err();
    assert_eq!((e.line, e.message.as_str()), (2, "transaction date expected"));
    let e = tokenize("2023-01-02 * (12 x\n").unwrap_err();
    assert_eq!((e.line, e.message.as_str()), (1, "transaction code not closed"));
    let e = tokenize("2023-01-02 * ; only a comment\n").unwrap_err();
    assert_eq!((e.line, e.message.as_str()), (1, "transaction description expected"));
    let e = tokenize("2023-01-02 * x\n\n  a  1 USD extra\n").unwrap_err();
    assert_eq!((e.line, e.message.as_str()), (3, "unexpected text after posting amount"));
}

#[test]
fn comment_skips_one_white_space_character() {
    let mut t = cursor("  ;  two spaces", 2);
    assert_eq!(tokenize_comment(&mut t), Some(String::from(" two spaces")));
    assert_eq!(t.line_position, 15);
    let mut t = cursor("  ;none", 2);
    assert_eq!(tokenize_comment(&mut t), Some(String::from("none")));
    let mut t = cursor("  ;", 2);
    assert_eq!(tokenize_comment(&mut t), Some(String::new()));
    let mut t = cursor("  x", 2);
    assert_eq!(tokenize_comment(&mut t), None);
    assert_eq!(t.line_position, 2);
}

#[test]
fn indented_comment_becomes_a_token() {
    let mut t = cursor("\t; note", 1);
    tokenize_indented_comment(&mut t);
    assert_eq!(kinds(&t.tokens), vec!["IndentedComment(7, \"note\")"]);
    let mut t = cursor("; note", 0);
    tokenize_journal_comment(&mut t);
    assert!(t.tokens.is_empty());
    assert_eq!(t.line_position, 6);
}

#[test]
fn line_by_line() {
    let mut t = cursor("  Expenses:Food  20.00 USD", 0);
    tokenize_line(&mut t).unwrap();
    assert_eq!(
        kinds(&t.tokens),
        vec![
            "PostingAccount(7, \"Expenses:Food\")",
            "PostingCommodity(7, \"USD\")",
            "PostingAmount(7, \"20.00\")",
        ]
    );
}
