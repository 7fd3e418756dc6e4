use crate::decimal::{create_rational, is_decimal_literal, DecimalError};
use crate::model::{outcome, Error, ErrorView, State, Token, TokenView};
use crate::text::{
    chars_of, is_blank, part_of, run_len, scan, string_of, trim_end, trimmed_len, CharClass,
};
use vstd::prelude::*;
use vstd::string::StringExecFns;

verus! {

/// Why a line is not a line of a journal.
#[derive(Clone, Copy, Debug, PartialEq, Eq, Structural)]
pub enum TokenizeFault {
    /// A line that starts at the margin does not start with a date.
    DateExpected,
    /// A `(` after the state has no `)` on the line.
    CodeNotClosed,
    /// A transaction header ends before its description.
    DescriptionExpected,
    /// A posting has a commodity without an amount, or an amount without a
    /// commodity.
    AmountIncomplete,
    /// Something other than a comment follows the amount of a posting.
    TrailingText,
}

impl TokenizeFault {
    /// The words that describe the fault.
    pub open spec fn text(self) -> Seq<char> {
        match self {
            TokenizeFault::DateExpected => "transaction date expected"@,
            TokenizeFault::CodeNotClosed => "transaction code not closed"@,
            TokenizeFault::DescriptionExpected => "transaction description expected"@,
            TokenizeFault::AmountIncomplete => "posting commodity and amount must come together"@,
            TokenizeFault::TrailingText => "unexpected text after posting amount"@,
        }
    }

    /// The words that describe the fault.
    pub fn message(self) -> (r: String)
        ensures
            r@ == self.text(),
    {
        match self {
            TokenizeFault::DateExpected => String::from_str("transaction date expected"),
            TokenizeFault::CodeNotClosed => String::from_str("transaction code not closed"),
            TokenizeFault::DescriptionExpected => String::from_str("transaction description expected"),
            TokenizeFault::AmountIncomplete => String::from_str(
                "posting commodity and amount must come together",
            ),
            TokenizeFault::TrailingText => String::from_str("unexpected text after posting amount"),
        }
    }
}

/// The end of the run of `class` that begins at `at`.
pub open spec fn run_end(s: Seq<char>, at: int, class: CharClass) -> int {
    at + run_len(s.skip(at), class)
}

/// The text of the comment that begins at `at`, if a `;` stands there: the
/// rest of the line after the `;` and one white space character.
pub open spec fn comment_at(s: Seq<char>, at: int) -> Option<Seq<char>> {
    if 0 <= at < s.len() && s[at] == ';' {
        if at + 1 < s.len() && is_blank(s[at + 1]) {
            Some(s.skip(at + 2))
        } else {
            Some(s.skip(at + 1))
        }
    } else {
        None
    }
}

/// The length of the account name at the start of `s`: it ends before a `;`,
/// before a white space character other than a space, and before a space
/// that is the last character or is followed by white space or by `;`.
pub open spec fn account_len(s: Seq<char>) -> nat
    decreases s.len(),
{
    if s.len() == 0 || s[0] == ';' {
        0
    } else if is_blank(s[0]) && (s[0] != ' ' || s.len() == 1 || is_blank(s[1]) || s[1] == ';') {
        0
    } else {
        1 + account_len(s.skip(1))
    }
}

/// The state that the character at `at` marks.
pub open spec fn state_at(s: Seq<char>, at: int) -> State {
    if 0 <= at < s.len() && s[at] == '*' {
        State::Cleared
    } else if 0 <= at < s.len() && s[at] == '!' {
        State::Pending
    } else {
        State::Uncleared
    }
}

/// A comment token for the comment at `at`, if there is one.
pub open spec fn comment_tokens(s: Seq<char>, at: int, number: usize, indented: bool) -> Seq<
    TokenView,
> {
    match comment_at(s, at) {
        Some(text) => if indented {
            seq![TokenView::IndentedComment(number, text)]
        } else {
            seq![TokenView::TransactionComment(number, text)]
        },
        None => Seq::empty(),
    }
}

/// The tokens of a header line: a date, a state, a code in brackets or none,
/// a description, a comment or none.
pub open spec fn header_tokens(s: Seq<char>, number: usize) -> Result<Seq<TokenView>, TokenizeFault> {
    let date_end = run_end(s, 0, CharClass::Solid);
    let marker = run_end(s, date_end, CharClass::Blank);
    let state = state_at(s, marker);
    let after_state = run_end(
        s,
        if state == State::Uncleared {
            marker
        } else {
            marker + 1
        },
        CharClass::Blank,
    );
    let coded = after_state < s.len() && s[after_state] == '(';
    let close = run_end(s, after_state + 1, CharClass::Coded);
    let start = if coded {
        run_end(s, close + 1, CharClass::Blank)
    } else {
        after_state
    };
    let stop = run_end(s, start, CharClass::Plain);
    let end = start + trimmed_len(s.subrange(start, stop));
    if date_end != run_end(s, 0, CharClass::Dated) || date_end == 0 {
        Err(TokenizeFault::DateExpected)
    } else if coded && close >= s.len() {
        Err(TokenizeFault::CodeNotClosed)
    } else if end == start {
        Err(TokenizeFault::DescriptionExpected)
    } else {
        Ok(
            seq![TokenView::TransactionDate(number, s.take(date_end)), TokenView::TransactionState(number, state)]
                + (if coded {
                seq![TokenView::TransactionCode(number, s.subrange(after_state + 1, close))]
            } else {
                Seq::empty()
            }) + seq![TokenView::TransactionDescription(number, s.subrange(start, end))]
                + comment_tokens(s, stop, number, false),
        )
    }
}

/// The tokens of a posting whose account begins at `at`: the account, then a
/// commodity and an amount or neither, then a comment or none. Of the two
/// words after the account the amount is the first if that is a decimal
/// literal, and the second if not.
pub open spec fn posting_tokens(s: Seq<char>, at: int, number: usize) -> Result<
    Seq<TokenView>,
    TokenizeFault,
> {
    let account_end = at + account_len(s.skip(at));
    let account = seq![TokenView::PostingAccount(number, s.subrange(at, account_end))];
    let first = run_end(s, account_end, CharClass::Blank);
    let first_end = run_end(s, first, CharClass::Word);
    let second = run_end(s, first_end, CharClass::Blank);
    let second_end = run_end(s, second, CharClass::Word);
    let rest = run_end(s, second_end, CharClass::Blank);
    let one = s.subrange(first, first_end);
    let two = s.subrange(second, second_end);
    if first_end == first {
        Ok(account + comment_tokens(s, first, number, true))
    } else if second_end == second {
        Err(TokenizeFault::AmountIncomplete)
    } else if rest < s.len() && s[rest] != ';' {
        Err(TokenizeFault::TrailingText)
    } else if is_decimal_literal(one) {
        Ok(
            account + seq![TokenView::PostingCommodity(number, two), TokenView::PostingAmount(number, one)]
                + comment_tokens(s, rest, number, true),
        )
    } else {
        Ok(
            account + seq![TokenView::PostingCommodity(number, one), TokenView::PostingAmount(number, two)]
                + comment_tokens(s, rest, number, true),
        )
    }
}

/// The tokens of one line. An empty line, a line of white space and a line
/// that begins with `;` have none. A line that begins with white space is a
/// comment or a posting; any other line is a transaction header.
pub open spec fn line_tokens(s: Seq<char>, number: usize) -> Result<Seq<TokenView>, TokenizeFault> {
    let indent = run_end(s, 0, CharClass::Blank);
    if indent == s.len() || s[0] == ';' {
        Ok(Seq::empty())
    } else if indent == 0 {
        header_tokens(s, number)
    } else if s[indent] == ';' {
        Ok(comment_tokens(s, indent, number, true))
    } else {
        posting_tokens(s, indent, number)
    }
}

/// A cursor in one line of a journal, with the tokens read so far.
pub struct Tokenizer {
    pub line_characters: Vec<char>,
    /// The number of lines before this one.
    pub line_index: usize,
    pub line_position: usize,
    pub tokens: Vec<Token>,
}

impl Tokenizer {
    /// The cursor is in the line and the line has a number.
    pub open spec fn wf(&self) -> bool {
        &&& self.line_position <= self.line_characters.len()
        &&& self.line_index < usize::MAX
    }

    /// The number of the line, counted from one.
    pub open spec fn number(&self) -> usize {
        (self.line_index + 1) as usize
    }

    /// The line and its number are those of `other`.
    pub open spec fn same_line(&self, other: &Tokenizer) -> bool {
        &&& self.line_characters == other.line_characters
        &&& self.line_index == other.line_index
    }
}

/// The end of the account name that begins at `start`.
fn scan_account(chars: &Vec<char>, start: usize) -> (end: usize)
    requires
        start <= chars.len(),
    ensures
        end == start + account_len(chars@.skip(start as int)),
        start <= end <= chars.len(),
{
    let mut i: usize = start;
    loop
        invariant
            start <= i <= chars.len(),
            start + account_len(chars@.skip(start as int)) == i + account_len(chars@.skip(i as int)),
        ensures
            account_len(chars@.skip(i as int)) == 0,
        decreases chars.len() - i,
    {
        if i >= chars.len() {
            break ;
        }
        let c = chars[i];
        proof {
            assert(chars@.skip(i as int)[0] == c);
            assert(chars@.skip(i as int).skip(1) =~= chars@.skip(i + 1));
            if i + 1 < chars.len() {
                assert(chars@.skip(i as int)[1] == chars@[i + 1]);
            }
        }
        if c == ';' {
            break ;
        }
        if CharClass::Blank.test(c) {
            if c != ' ' || i + 1 == chars.len() {
                break ;
            }
            let d = chars[i + 1];
            if CharClass::Blank.test(d) || d == ';' {
                break ;
            }
        }
        i += 1;
    }
    i
}

/// Reads the comment at the cursor, if a `;` stands there: the rest of the
/// line after the `;` and one white space character.
pub fn tokenize_comment(tokenizer: &mut Tokenizer) -> (r: Option<String>)
    requires
        old(tokenizer).wf(),
    ensures
        final(tokenizer).same_line(old(tokenizer)),
        final(tokenizer).wf(),
        final(tokenizer).tokens == old(tokenizer).tokens,
        r.deep_view() == comment_at(
            old(tokenizer).line_characters@,
            old(tokenizer).line_position as int,
        ),
        final(tokenizer).line_position == if r is Some {
            old(tokenizer).line_characters.len()
        } else {
            old(tokenizer).line_position
        },
{
    let len = tokenizer.line_characters.len();
    let at = tokenizer.line_position;
    if at < len && tokenizer.line_characters[at] == ';' {
        let mut from = at + 1;
        if from < len && CharClass::Blank.test(tokenizer.line_characters[from]) {
            from = from + 1;
        }
        let comment = string_of(&tokenizer.line_characters, from, len);
        tokenizer.line_position = len;
        return Some(comment);
    }
    None
}

/// Reads the comment at the cursor, if there is one, and drops it: a comment
/// at the margin belongs to no transaction.
pub fn tokenize_journal_comment(tokenizer: &mut Tokenizer)
    requires
        old(tokenizer).wf(),
    ensures
        final(tokenizer).same_line(old(tokenizer)),
        final(tokenizer).wf(),
        final(tokenizer).tokens == old(tokenizer).tokens,
        final(tokenizer).line_position == if comment_at(
            old(tokenizer).line_characters@,
            old(tokenizer).line_position as int,
        ) is Some {
            old(tokenizer).line_characters.len()
        } else {
            old(tokenizer).line_position
        },
{
    let _ = tokenize_comment(tokenizer);
}

/// Reads the comment at the cursor, if there is one, as a comment of the
/// posting or transaction above it.
pub fn tokenize_indented_comment(tokenizer: &mut Tokenizer)
    requires
        old(tokenizer).wf(),
    ensures
        final(tokenizer).same_line(old(tokenizer)),
        final(tokenizer).wf(),
        final(tokenizer).tokens.deep_view() == old(tokenizer).tokens.deep_view() + comment_tokens(
            old(tokenizer).line_characters@,
            old(tokenizer).line_position as int,
            old(tokenizer).number(),
            true,
        ),
{
    let ghost before = tokenizer.tokens.deep_view();
    match tokenize_comment(tokenizer) {
        Some(comment) => {
            tokenizer.tokens.push(Token::IndentedComment(tokenizer.line_index + 1, comment));
            assert(tokenizer.tokens.deep_view() =~= before + seq![
                TokenView::IndentedComment(tokenizer.number(), comment@),
            ]);
        },
        None => {
            assert(tokenizer.tokens.deep_view() =~= before + Seq::empty());
        },
    }
}

/// Reads the comment at the cursor, if there is one, as the comment of the
/// transaction whose header this line is.
pub fn tokenize_transaction_comment(tokenizer: &mut Tokenizer)
    requires
        old(tokenizer).wf(),
    ensures
        final(tokenizer).same_line(old(tokenizer)),
        final(tokenizer).wf(),
        final(tokenizer).tokens.deep_view() == old(tokenizer).tokens.deep_view() + comment_tokens(
            old(tokenizer).line_characters@,
            old(tokenizer).line_position as int,
            old(tokenizer).number(),
            false,
        ),
{
    let ghost before = tokenizer.tokens.deep_view();
    match tokenize_comment(tokenizer) {
        Some(comment) => {
            tokenizer.tokens.push(Token::TransactionComment(tokenizer.line_index + 1, comment));
            assert(tokenizer.tokens.deep_view() =~= before + seq![
                TokenView::TransactionComment(tokenizer.number(), comment@),
            ]);
        },
        None => {
            assert(tokenizer.tokens.deep_view() =~= before + Seq::empty());
        },
    }
}

/// Reads a transaction header from the start of the line: a date, a state
/// marker or none, a code in brackets or none, a description, a comment or
/// none. On a fault no token is added.
pub fn tokenize_header(tokenizer: &mut Tokenizer) -> (r: Result<(), TokenizeFault>)
    requires
        old(tokenizer).wf(),
    ensures
        final(tokenizer).same_line(old(tokenizer)),
        final(tokenizer).wf(),
        match header_tokens(old(tokenizer).line_characters@, old(tokenizer).number()) {
            Ok(read) => r is Ok && final(tokenizer).tokens.deep_view() == old(tokenizer).tokens.deep_view() + read,
            Err(fault) => r == Err::<(), TokenizeFault>(fault) && final(tokenizer).tokens.deep_view()
                == old(tokenizer).tokens.deep_view(),
        },
{
    let ghost before = tokenizer.tokens.deep_view();
    let ghost s = tokenizer.line_characters@;
    let number = tokenizer.line_index + 1;
    let len = tokenizer.line_characters.len();
    let date_end = scan(&tokenizer.line_characters, 0, CharClass::Solid);
    let dated = scan(&tokenizer.line_characters, 0, CharClass::Dated);
    if date_end != dated || date_end == 0 {
        return Err(TokenizeFault::DateExpected);
    }
    let marker = scan(&tokenizer.line_characters, date_end, CharClass::Blank);
    let mut state = State::Uncleared;
    let mut position = marker;
    if marker < len {
        if tokenizer.line_characters[marker] == '*' {
            state = State::Cleared;
            position = marker + 1;
        } else if tokenizer.line_characters[marker] == '!' {
            state = State::Pending;
            position = marker + 1;
        }
    }
    let after_state = scan(&tokenizer.line_characters, position, CharClass::Blank);
    let mut code: Option<String> = None;
    let mut start = after_state;
    if after_state < len && tokenizer.line_characters[after_state] == '(' {
        let close = scan(&tokenizer.line_characters, after_state + 1, CharClass::Coded);
        if close >= len {
            return Err(TokenizeFault::CodeNotClosed);
        }
        code = Some(string_of(&tokenizer.line_characters, after_state + 1, close));
        start = scan(&tokenizer.line_characters, close + 1, CharClass::Blank);
    }
    let stop = scan(&tokenizer.line_characters, start, CharClass::Plain);
    let end = trim_end(&tokenizer.line_characters, start, stop);
    if end == start {
        return Err(TokenizeFault::DescriptionExpected);
    }
    let date = string_of(&tokenizer.line_characters, 0, date_end);
    let description = string_of(&tokenizer.line_characters, start, end);
    assert(s.take(date_end as int) =~= s.subrange(0, date_end as int));
    let ghost mut read = seq![
        TokenView::TransactionDate(number, date@),
        TokenView::TransactionState(number, state),
    ];
    tokenizer.tokens.push(Token::TransactionDate(number, date));
    tokenizer.tokens.push(Token::TransactionState(number, state));
    assert(tokenizer.tokens.deep_view() =~= before + read);
    match code {
        Some(code) => {
            proof {
                read = read + seq![TokenView::TransactionCode(number, code@)];
            }
            tokenizer.tokens.push(Token::TransactionCode(number, code));
        },
        None => {
            proof {
                read = read + Seq::empty();
            }
        },
    }
    assert(tokenizer.tokens.deep_view() =~= before + read);
    proof {
        read = read + seq![TokenView::TransactionDescription(number, description@)];
    }
    tokenizer.tokens.push(Token::TransactionDescription(number, description));
    assert(tokenizer.tokens.deep_view() =~= before + read);
    tokenizer.line_position = stop;
    tokenize_transaction_comment(tokenizer);
    assert(tokenizer.tokens.deep_view() =~= before + (read + comment_tokens(
        s,
        stop as int,
        number,
        false,
    )));
    Ok(())
}

/// Reads a posting whose account begins at the cursor: the account, then a
/// commodity and an amount or neither, then a comment or none. On a fault no
/// token is added.
pub fn tokenize_posting(tokenizer: &mut Tokenizer) -> (r: Result<(), TokenizeFault>)
    requires
        old(tokenizer).wf(),
    ensures
        final(tokenizer).same_line(old(tokenizer)),
        final(tokenizer).wf(),
        match posting_tokens(
            old(tokenizer).line_characters@,
            old(tokenizer).line_position as int,
            old(tokenizer).number(),
        ) {
            Ok(read) => r is Ok && final(tokenizer).tokens.deep_view() == old(tokenizer).tokens.deep_view() + read,
            Err(fault) => r == Err::<(), TokenizeFault>(fault) && final(tokenizer).tokens.deep_view()
                == old(tokenizer).tokens.deep_view(),
        },
{
    let ghost before = tokenizer.tokens.deep_view();
    let ghost s = tokenizer.line_characters@;
    let number = tokenizer.line_index + 1;
    let len = tokenizer.line_characters.len();
    let at = tokenizer.line_position;
    let account_end = scan_account(&tokenizer.line_characters, at);
    let first = scan(&tokenizer.line_characters, account_end, CharClass::Blank);
    let first_end = scan(&tokenizer.line_characters, first, CharClass::Word);
    let account = string_of(&tokenizer.line_characters, at, account_end);
    let ghost named = seq![TokenView::PostingAccount(number, account@)];
    if first_end == first {
        tokenizer.tokens.push(Token::PostingAccount(number, account));
        assert(tokenizer.tokens.deep_view() =~= before + named);
        tokenizer.line_position = first;
        tokenize_indented_comment(tokenizer);
        assert(tokenizer.tokens.deep_view() =~= before + (named + comment_tokens(
            s,
            first as int,
            number,
            true,
        )));
        return Ok(());
    }
    let second = scan(&tokenizer.line_characters, first_end, CharClass::Blank);
    let second_end = scan(&tokenizer.line_characters, second, CharClass::Word);
    if second_end == second {
        return Err(TokenizeFault::AmountIncomplete);
    }
    let rest = scan(&tokenizer.line_characters, second_end, CharClass::Blank);
    if rest < len && tokenizer.line_characters[rest] != ';' {
        return Err(TokenizeFault::TrailingText);
    }
    let one = string_of(&tokenizer.line_characters, first, first_end);
    let two = string_of(&tokenizer.line_characters, second, second_end);
    let amount_first = match create_rational(one.as_str()) {
        Err(DecimalError::Malformed) => false,
        _ => true,
    };
    let ghost valued = if amount_first {
        seq![TokenView::PostingCommodity(number, two@), TokenView::PostingAmount(number, one@)]
    } else {
        seq![TokenView::PostingCommodity(number, one@), TokenView::PostingAmount(number, two@)]
    };
    tokenizer.tokens.push(Token::PostingAccount(number, account));
    if amount_first {
        tokenizer.tokens.push(Token::PostingCommodity(number, two));
        tokenizer.tokens.push(Token::PostingAmount(number, one));
    } else {
        tokenizer.tokens.push(Token::PostingCommodity(number, one));
        tokenizer.tokens.push(Token::PostingAmount(number, two));
    }
    assert(tokenizer.tokens.deep_view() =~= before + (named + valued));
    tokenizer.line_position = rest;
    tokenize_indented_comment(tokenizer);
    assert(tokenizer.tokens.deep_view() =~= before + (named + valued + comment_tokens(
        s,
        rest as int,
        number,
        true,
    )));
    Ok(())
}

/// Reads the line from its start. An empty line, a line of white space and
/// a comment at the margin give no token; a line that begins with white space
/// is a comment or a posting; any other line is a transaction header. On a
/// fault no token is added.
pub fn tokenize_line(tokenizer: &mut Tokenizer) -> (r: Result<(), TokenizeFault>)
    requires
        old(tokenizer).wf(),
    ensures
        final(tokenizer).same_line(old(tokenizer)),
        final(tokenizer).wf(),
        match line_tokens(old(tokenizer).line_characters@, old(tokenizer).number()) {
            Ok(read) => r is Ok && final(tokenizer).tokens.deep_view() == old(tokenizer).tokens.deep_view() + read,
            Err(fault) => r == Err::<(), TokenizeFault>(fault) && final(tokenizer).tokens.deep_view()
                == old(tokenizer).tokens.deep_view(),
        },
{
    let ghost before = tokenizer.tokens.deep_view();
    let len = tokenizer.line_characters.len();
    let indent = scan(&tokenizer.line_characters, 0, CharClass::Blank);
    if indent == len {
        assert(before + Seq::<TokenView>::empty() =~= before);
        return Ok(());
    }
    if tokenizer.line_characters[0] == ';' {
        tokenizer.line_position = 0;
        tokenize_journal_comment(tokenizer);
        assert(before + Seq::<TokenView>::empty() =~= before);
        return Ok(());
    }
    if indent == 0 {
        return tokenize_header(tokenizer);
    }
    tokenizer.line_position = indent;
    if tokenizer.line_characters[indent] == ';' {
        tokenize_indented_comment(tokenizer);
        Ok(())
    } else {
        tokenize_posting(tokenizer)
    }
}

/// The line that begins at `start`: the characters up to the next line feed,
/// without a carriage return before it.
pub open spec fn line_at(text: Seq<char>, start: int) -> Seq<char> {
    let end = run_end(text, start, CharClass::InLine);
    if end > start && text[end - 1] == '\r' {
        text.subrange(start, end - 1)
    } else {
        text.subrange(start, end)
    }
}

/// `rest` after `read`, where `rest` is no fault.
pub open spec fn after(read: Seq<TokenView>, rest: Result<Seq<TokenView>, ErrorView>) -> Result<
    Seq<TokenView>,
    ErrorView,
> {
    match rest {
        Ok(more) => Ok(read + more),
        Err(e) => Err(e),
    }
}

/// The tokens of the lines from the one that begins at `start`, which has
/// `index` lines before it, or the first fault with the number of its line.
pub open spec fn tokens_from(text: Seq<char>, start: int, index: int) -> Result<
    Seq<TokenView>,
    ErrorView,
>
    decreases text.len() + 1 - start,
    via tokens_from_decreases
{
    if start < 0 || start >= text.len() {
        Ok(Seq::empty())
    } else {
        let next = run_end(text, start, CharClass::InLine) + 1;
        match line_tokens(line_at(text, start), (index + 1) as usize) {
            Err(fault) => Err(ErrorView { line: (index + 1) as usize, message: fault.text() }),
            Ok(read) => after(read, tokens_from(text, next, index + 1)),
        }
    }
}

#[via_fn]
proof fn tokens_from_decreases(text: Seq<char>, start: int, index: int) {
    if 0 <= start < text.len() {
        crate::text::lemma_run_len(text.skip(start), CharClass::InLine);
    }
}

/// The tokens of a journal, line by line, or the first fault with the number
/// of its line.
pub open spec fn tokenized(text: Seq<char>) -> Result<Seq<TokenView>, ErrorView> {
    tokens_from(text, 0, 0)
}

/// No token stands on a line after line `bound`.
pub open spec fn lines_below(tokens: Seq<TokenView>, bound: int) -> bool {
    forall|i: int| 0 <= i < tokens.len() ==> (#[trigger] tokens[i]).line() <= bound
}

/// The tokens of a line carry the number of the line.
pub proof fn lemma_line_tokens_number(s: Seq<char>, number: usize)
    ensures
        line_tokens(s, number) matches Ok(read) ==> forall|i: int|
            0 <= i < read.len() ==> (#[trigger] read[i]).line() == number,
{
}

/// A journal has no more lines with tokens than characters.
pub proof fn lemma_tokens_lines(text: Seq<char>, start: int, index: int)
    requires
        0 <= index <= start,
        text.len() <= usize::MAX,
    ensures
        tokens_from(text, start, index) matches Ok(read) ==> lines_below(read, text.len() as int),
    decreases text.len() + 1 - start,
{
    if start < text.len() {
        let next = run_end(text, start, CharClass::InLine) + 1;
        crate::text::lemma_run_len(text.skip(start), CharClass::InLine);
        lemma_line_tokens_number(line_at(text, start), (index + 1) as usize);
        lemma_tokens_lines(text, next, index + 1);
    }
}

/// The tokens of the journal `text`, line by line, or the first fault with the
/// number of its line.
pub fn tokenize(text: &str) -> (r: Result<Vec<Token>, Error>)
    ensures
        outcome(r) == tokenized(text@),
        r matches Ok(tokens) ==> lines_below(tokens.deep_view(), text@.len() as int),
{
    proof {
        if text@.len() <= usize::MAX {
            lemma_tokens_lines(text@, 0, 0);
        }
    }
    let chars = chars_of(text);
    let mut tokenizer = Tokenizer {
        line_characters: Vec::new(),
        line_index: 0,
        line_position: 0,
        tokens: Vec::new(),
    };
    let mut start: usize = 0;
    assert(tokenizer.tokens.deep_view() =~= Seq::empty());
    assert(after(Seq::empty(), tokenized(chars@)) == tokenized(chars@)) by {
        if let Ok(more) = tokenized(chars@) {
            assert(Seq::<TokenView>::empty() + more =~= more);
        }
    }
    while start < chars.len()
        invariant
            chars@ == text@,
            start <= chars.len(),
            tokenizer.line_index <= start,
            tokenized(chars@) == after(
                tokenizer.tokens.deep_view(),
                tokens_from(chars@, start as int, tokenizer.line_index as int),
            ),
        decreases chars.len() - start,
    {
        let ghost before = tokenizer.tokens.deep_view();
        let ghost index = tokenizer.line_index as int;
        let end = scan(&chars, start, CharClass::InLine);
        let stop = if end > start && chars[end - 1] == '\r' {
            end - 1
        } else {
            end
        };
        tokenizer.line_characters = part_of(&chars, start, stop);
        tokenizer.line_position = 0;
        let ghost line = line_tokens(line_at(chars@, start as int), tokenizer.number());
        let ghost rest = tokens_from(chars@, end + 1, index + 1);
        assert(tokens_from(chars@, start as int, index) == match line {
            Err(fault) => Err(ErrorView { line: (index + 1) as usize, message: fault.text() }),
            Ok(read) => after(read, rest),
        });
        match tokenize_line(&mut tokenizer) {
            Err(fault) => {
                return Err(Error { line: tokenizer.line_index + 1, message: fault.message() });
            },
            Ok(()) => {},
        }
        proof {
            let read = line->Ok_0;
            assert(tokenizer.tokens.deep_view() == before + read);
            if let Ok(more) = rest {
                assert(before + (read + more) =~= (before + read) + more);
            }
            assert(after(before, after(read, rest)) == after(before + read, rest));
        }
        if end == chars.len() {
            start = end;
        } else {
            start = end + 1;
        }
        tokenizer.line_index = tokenizer.line_index + 1;
    }
    proof {
        assert(tokenizer.tokens.deep_view() + Seq::<TokenView>::empty()
            =~= tokenizer.tokens.deep_view());
    }
    Ok(tokenizer.tokens)
}

} // verus!
