use plain_ledger::amount::Amount;
use plain_ledger::cli::{execute_command, parse_arguments, start, Argument, Command, Report};
use plain_ledger::decimal::create_rational;
use plain_ledger::format::format_amount;
use plain_ledger::journal::read_journal;
use plain_ledger::parser::parse_unbalanced_transactions;
use plain_ledger::print::{print_explicit, print_raw};
use plain_ledger::tokenizer::tokenize;

const JOURNAL: &str = "2023-01-01 * (7) Groceries ; weekly\n  ; at the market\n  Expenses:Food  20.00 USD ; bread\n  Assets:Cash\n  ; wallet\n\n2023-01-02 Rent\n  Expenses:Rent  -0.5 USD\n  Assets:Bank  USD 0.50\n";

#[test]
fn explicit_print_shows_every_amount() {
    let balanced = read_journal(JOURNAL).unwrap();
    assert_eq!(
        print_explicit(&balanced),
        "2023-01-01 * (7) Groceries\n\t; weekly\n\t; at the market\n\tExpenses:Food    USD 20\n\t; bread\n\tAssets:Cash      USD-20\n\t; wallet\n\n2023-01-02 Rent\n\tExpenses:Rent    USD-0.5\n\tAssets:Bank      USD 0.5\n"
    );
}

#[test]
fn raw_print_shows_the_amounts_that_were_written() {
    let tokens = tokenize(JOURNAL).unwrap();
    let mut unbalanced = Vec::new();
    parse_unbalanced_transactions(&tokens, &mut unbalanced).unwrap();
    assert_eq!(
        print_raw(&unbalanced),
        "2023-01-01 * (7) Groceries\n\t; weekly\n\t; at the market\n\tExpenses:Food    USD 20\n\t; bread\n\tAssets:Cash\n\t; wallet\n\n2023-01-02 Rent\n\tExpenses:Rent    USD-0.5\n\tAssets:Bank      USD 0.5\n"
    );
}

#[test]
fn a_transaction_without_postings_prints_nothing() {
    let balanced = read_journal("2023-01-01 * a\n  x  1 USD\n  y\n2023-01-02 ! b\n").unwrap();
    assert_eq!(balanced.len(), 2);
    assert_eq!(print_explicit(&balanced), "");
    assert_eq!(print_explicit(&Vec::new()), "");
    assert_eq!(print_raw(&Vec::new()), "");
}

#[test]
fn amounts_as_text() {
    let text = |n: i64, d: i64| format_amount(&Amount::new(n, d).unwrap());
    assert_eq!(text(0, 5), "0");
    assert_eq!(text(-20, 1), "-20");
    assert_eq!(text(12345, 1000), "12.345");
    assert_eq!(text(-1, 8), "-0.125");
    assert_eq!(text(1, 1000), "0.001");
    assert_eq!(text(1, 3), "1/3");
    assert_eq!(text(-7, 6), "-7/6");
    assert_eq!(text(i64::MIN, 1), "-9223372036854775808");
    assert_eq!(text(i64::MAX, 2), "4611686018427387903.5");
    assert_eq!(text(1, 1_000_000_000_000_000_000), "0.000000000000000001");
}

#[test]
fn literal_to_amount_and_back() {
    for literal in ["0", "-0", "20.00", "-20.5", "007.250", "0.000000000000000001", "123456789.987654321"] {
        let amount = create_rational(literal).unwrap();
        let text = format_amount(&amount);
        assert_eq!(create_rational(&text), Ok(amount), "{} -> {}", literal, text);
    }
    assert_eq!(format_amount(&create_rational("20.00").unwrap()), "20");
    assert_eq!(format_amount(&create_rational("007.250").unwrap()), "7.25");
    assert_eq!(format_amount(&create_rational("-0").unwrap()), "0");
}

#[test]
fn reports_follow_command_and_arguments() {
    assert_eq!(execute_command(Command::Balance, &vec![]), Report::BalanceTree);
    assert_eq!(
        execute_command(Command::Balance, &vec![Argument::Tree, Argument::Flat]),
        Report::BalanceFlat
    );
    assert_eq!(execute_command(Command::Print, &vec![Argument::Raw]), Report::PrintRaw);
    assert_eq!(
        execute_command(Command::Print, &vec![Argument::Raw, Argument::Explicit]),
        Report::PrintExplicit
    );
    assert_eq!(execute_command(Command::Print, &vec![]), Report::PrintRaw);
    assert_eq!(execute_command(Command::Accounts, &vec![Argument::Flat]), Report::AccountsFlat);
    assert_eq!(execute_command(Command::Accounts, &vec![]), Report::AccountsTree);
    assert_eq!(execute_command(Command::Register, &vec![Argument::Flat]), Report::Register);
    assert_eq!(execute_command(Command::Codes, &vec![]), Report::Codes);
}

fn words(line: &str) -> Vec<String> {
    line.split_whitespace().map(String::from).collect()
}

#[test]
fn command_lines_are_read_word_by_word() {
    let mut files = Vec::new();
    let mut command = None;
    let mut arguments = Vec::new();
    parse_arguments(
        &words("-f a.journal bal --flat ignored --file b.journal -x reg --tree --raw"),
        &mut files,
        &mut command,
        &mut arguments,
    )
    .unwrap();
    assert_eq!(files, vec![String::from("a.journal"), String::from("b.journal")]);
    assert_eq!(command, Some(Command::Register));
    assert_eq!(
        arguments,
        vec![Argument::Flat, Argument::Explicit, Argument::Tree, Argument::Raw]
    );
    assert_eq!(
        parse_arguments(&words("print --file"), &mut files, &mut command, &mut arguments),
        Err(String::from("Error : No argument provided for --file"))
    );
}

#[test]
fn a_plan_needs_a_command_and_a_file() {
    let plan = start(&words("--file a.journal print --explicit")).unwrap();
    assert_eq!(plan.files, vec![String::from("a.journal")]);
    assert_eq!(plan.report, Report::PrintExplicit);
    assert_eq!(start(&words("accounts -f x")).unwrap().report, Report::AccountsTree);
    assert_eq!(start(&words("codes -f x")).unwrap().report, Report::Codes);
    assert_eq!(
        start(&words("--file a.journal")).unwrap_err(),
        "Error : No command selected"
    );
    assert_eq!(
        start(&words("balance")).unwrap_err(),
        "Error : No file(s) selected. Try --file <file> to select a file"
    );
    assert_eq!(start(&words("-f")).unwrap_err(), "Error : No argument provided for --file");
}

fn entry(description: &str, accounts: &[(&str, Option<(&str, i64)>)]) -> plain_ledger::model::Transaction<plain_ledger::print::PrintedPosting> {
    plain_ledger::model::Transaction {
        line: 1,
        date: String::from("2023-01-01"),
        state: plain_ledger::model::State::Uncleared,
        code: None,
        description: String::from(description),
        comments: vec![plain_ledger::model::Comment { line: 1, comment: String::from("c") }],
        postings: accounts
            .iter()
            .map(|(account, shown)| plain_ledger::print::PrintedPosting {
                account: String::from(*account),
                shown: shown.map(|(c, n)| (String::from(c), Amount::from_integer(n))),
                comments: Vec::new(),
            })
            .collect(),
    }
}

#[test]
fn print_writes_transactions_without_postings_too() {
    let entries = vec![
        entry("empty", &[]),
        entry("full", &[("ab", Some(("USD", 1))), ("abcd", None), ("a", Some(("USD", -1)))]),
    ];
    assert_eq!(
        plain_ledger::print::print(&entries),
        "2023-01-01 empty\n\t; c\n\n2023-01-01 full\n\t; c\n\tab      USD 1\n\tabcd\n\ta       USD-1\n"
    );
    assert_eq!(plain_ledger::print::print(&Vec::new()), "");
    assert_eq!(
        plain_ledger::print::print(&vec![entry("empty", &[])]),
        "2023-01-01 empty\n\t; c\n"
    );
}

#[test]
fn amounts_are_padded_up_to_the_column() {
    let amount = Amount::from_integer(5);
    let usd = String::from("USD");
    let mut out = String::from("|");
    plain_ledger::print::print_mixed_amount(&mut out, 2, 6, &usd, &amount);
    assert_eq!(out, "|        USD 5");
    let mut out = String::new();
    plain_ledger::print::print_mixed_amount(&mut out, 9, 6, &usd, &amount);
    assert_eq!(out, " USD 5");
    let mut out = String::new();
    plain_ledger::print::print_mixed_amount(&mut out, 10, 6, &usd, &Amount::from_integer(-5));
    assert_eq!(out, "USD-5");
    let posting = plain_ledger::print::PrintedPosting {
        account: String::from("abcdefgh"),
        shown: Some((String::from("EUR"), Amount::from_integer(2))),
        comments: Vec::new(),
    };
    let mut out = String::new();
    plain_ledger::print::print_amount(&mut out, &posting, 5);
    assert_eq!(out, " EUR 2\n");
}
