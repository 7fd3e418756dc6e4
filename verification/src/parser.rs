use crate::decimal::{create_rational, literal_amount, DecimalError};
use crate::model::{
    Comment, CommentView, Token, TokenView, Transaction, TransactionView, UnbalancedPosting,
    UnbalancedPostingView, UnbalancedView,
};
use vstd::prelude::*;
use vstd::string::StringExecFns;

verus! {

/// Why a sequence of tokens is not a journal.
#[derive(Clone, Copy, Debug, PartialEq, Eq, Structural)]
pub enum ParseError {
    /// A date is not followed by a state.
    StateExpected,
    /// A transaction header has no description.
    DescriptionExpected,
    /// A commodity is the last token.
    AmountNotFound,
    /// A commodity is followed by something else than an amount.
    NotAnAmount,
    /// The text of an amount is not a decimal literal.
    InvalidAmount,
    /// An amount does not fit the exact fractions of the machine.
    AmountOverflow,
    /// A comment stands before the first transaction.
    CommentOutsideTransaction,
    /// A posting stands before the first transaction.
    PostingOutsideTransaction,
    /// A token stands where no rule of the grammar begins.
    UnexpectedToken,
}

impl ParseError {
    /// The words that describe the error.
    pub open spec fn text(self) -> Seq<char> {
        match self {
            ParseError::StateExpected => "transaction state expected"@,
            ParseError::DescriptionExpected => "transaction description expected"@,
            ParseError::AmountNotFound => "posting amount not found"@,
            ParseError::NotAnAmount => "not a posting amount"@,
            ParseError::InvalidAmount => "invalid posting amount"@,
            ParseError::AmountOverflow => "posting amount out of range"@,
            ParseError::CommentOutsideTransaction => "invalid position for comment"@,
            ParseError::PostingOutsideTransaction => "invalid position for posting"@,
            ParseError::UnexpectedToken => "unexpected token"@,
        }
    }

    /// The words that describe the error.
    pub fn message(self) -> (r: String)
        ensures
            r@ == self.text(),
    {
        match self {
            ParseError::StateExpected => String::from_str("transaction state expected"),
            ParseError::DescriptionExpected => String::from_str("transaction description expected"),
            ParseError::AmountNotFound => String::from_str("posting amount not found"),
            ParseError::NotAnAmount => String::from_str("not a posting amount"),
            ParseError::InvalidAmount => String::from_str("invalid posting amount"),
            ParseError::AmountOverflow => String::from_str("posting amount out of range"),
            ParseError::CommentOutsideTransaction => String::from_str("invalid position for comment"),
            ParseError::PostingOutsideTransaction => String::from_str("invalid position for posting"),
            ParseError::UnexpectedToken => String::from_str("unexpected token"),
        }
    }
}

/// The token at position `i`, if there is one.
pub open spec fn token_at(tokens: Seq<TokenView>, i: int) -> Option<TokenView> {
    if 0 <= i < tokens.len() {
        Some(tokens[i])
    } else {
        None
    }
}

/// The state of a parse of given tokens: what has been built, and the next
/// token to read.
pub struct ParserView {
    pub transactions: Seq<UnbalancedView>,
    pub index: int,
}

/// `transactions` with `posting` added to the last of them.
pub open spec fn with_posting(
    transactions: Seq<UnbalancedView>,
    posting: UnbalancedPostingView,
) -> Seq<UnbalancedView>
    recommends
        transactions.len() > 0,
{
    let last = transactions.last();
    transactions.drop_last().push(
        TransactionView { postings: last.postings.push(posting), ..last },
    )
}

/// `transactions` with `comment` added to the last of them.
pub open spec fn with_transaction_comment(
    transactions: Seq<UnbalancedView>,
    comment: CommentView,
) -> Seq<UnbalancedView>
    recommends
        transactions.len() > 0,
{
    let last = transactions.last();
    transactions.drop_last().push(
        TransactionView { comments: last.comments.push(comment), ..last },
    )
}

/// `transactions` with `comment` added to the last posting of the last of
/// them, or to that transaction where it has no posting yet.
pub open spec fn with_indented_comment(
    transactions: Seq<UnbalancedView>,
    comment: CommentView,
) -> Seq<UnbalancedView>
    recommends
        transactions.len() > 0,
{
    let last = transactions.last();
    if last.postings.len() == 0 {
        with_transaction_comment(transactions, comment)
    } else {
        let posting = last.postings.last();
        transactions.drop_last().push(
            TransactionView {
                postings: last.postings.drop_last().push(
                    UnbalancedPostingView { comments: posting.comments.push(comment), ..posting },
                ),
                ..last
            },
        )
    }
}

impl ParserView {
    /// Reads a transaction header, if one begins here: a date, a state, a
    /// code or none, a description. Anything but a date is left unread.
    pub open spec fn header(self, tokens: Seq<TokenView>) -> Result<ParserView, ParseError> {
        match token_at(tokens, self.index) {
            Some(TokenView::TransactionDate(line, date)) => match token_at(tokens, self.index + 1) {
                Some(TokenView::TransactionState(_, state)) => {
                    let code = match token_at(tokens, self.index + 2) {
                        Some(TokenView::TransactionCode(_, code)) => Some(code),
                        _ => None,
                    };
                    let next = if code is Some {
                        self.index + 3
                    } else {
                        self.index + 2
                    };
                    match token_at(tokens, next) {
                        Some(TokenView::TransactionDescription(_, description)) => Ok(
                            ParserView {
                                transactions: self.transactions.push(
                                    TransactionView {
                                        line,
                                        date,
                                        state,
                                        code,
                                        description,
                                        comments: Seq::empty(),
                                        postings: Seq::empty(),
                                    },
                                ),
                                index: next + 1,
                            },
                        ),
                        _ => Err(ParseError::DescriptionExpected),
                    }
                },
                _ => Err(ParseError::StateExpected),
            },
            _ => Ok(self),
        }
    }

    /// Reads the comment at the end of a header line, if one stands here.
    pub open spec fn transaction_comment(self, tokens: Seq<TokenView>) -> Result<
        ParserView,
        ParseError,
    > {
        match token_at(tokens, self.index) {
            Some(TokenView::TransactionComment(line, comment)) => if self.transactions.len() == 0 {
                Err(ParseError::CommentOutsideTransaction)
            } else {
                Ok(
                    ParserView {
                        transactions: with_transaction_comment(
                            self.transactions,
                            CommentView { line, comment },
                        ),
                        index: self.index + 1,
                    },
                )
            },
            _ => Ok(self),
        }
    }

    /// Reads a posting, if one begins here: an account, then a commodity and
    /// an amount or neither.
    pub open spec fn posting(self, tokens: Seq<TokenView>) -> Result<ParserView, ParseError> {
        match token_at(tokens, self.index) {
            Some(TokenView::PostingAccount(line, account)) => if self.transactions.len() == 0 {
                Err(ParseError::PostingOutsideTransaction)
            } else {
                match token_at(tokens, self.index + 1) {
                    Some(TokenView::PostingCommodity(_, commodity)) => match token_at(
                        tokens,
                        self.index + 2,
                    ) {
                        None => Err(ParseError::AmountNotFound),
                        Some(TokenView::PostingAmount(_, text)) => match literal_amount(text) {
                            Err(DecimalError::Malformed) => Err(ParseError::InvalidAmount),
                            Err(DecimalError::Overflow) => Err(ParseError::AmountOverflow),
                            Ok(amount) => Ok(
                                ParserView {
                                    transactions: with_posting(
                                        self.transactions,
                                        UnbalancedPostingView {
                                            line,
                                            account,
                                            commodity: Some(commodity),
                                            amount: Some(amount),
                                            comments: Seq::empty(),
                                        },
                                    ),
                                    index: self.index + 3,
                                },
                            ),
                        },
                        Some(_) => Err(ParseError::NotAnAmount),
                    },
                    _ => Ok(
                        ParserView {
                            transactions: with_posting(
                                self.transactions,
                                UnbalancedPostingView {
                                    line,
                                    account,
                                    commodity: None,
                                    amount: None,
                                    comments: Seq::empty(),
                                },
                            ),
                            index: self.index + 1,
                        },
                    ),
                }
            },
            _ => Ok(self),
        }
    }

    /// Reads a comment on a line of its own, if one stands here.
    pub open spec fn indented_comment(self, tokens: Seq<TokenView>) -> Result<
        ParserView,
        ParseError,
    > {
        match token_at(tokens, self.index) {
            Some(TokenView::IndentedComment(line, comment)) => if self.transactions.len() == 0 {
                Err(ParseError::CommentOutsideTransaction)
            } else {
                Ok(
                    ParserView {
                        transactions: with_indented_comment(
                            self.transactions,
                            CommentView { line, comment },
                        ),
                        index: self.index + 1,
                    },
                )
            },
            _ => Ok(self),
        }
    }

    /// One round of the parser: a header, a header comment, a posting and an
    /// indented comment, each of them if it is there. A round that reads
    /// nothing has met a token that begins none of them.
    pub open spec fn round(self, tokens: Seq<TokenView>) -> Result<ParserView, ParseError> {
        match self.header(tokens) {
            Err(e) => Err(e),
            Ok(a) => match a.transaction_comment(tokens) {
                Err(e) => Err(e),
                Ok(b) => match b.posting(tokens) {
                    Err(e) => Err(e),
                    Ok(c) => match c.indented_comment(tokens) {
                        Err(e) => Err(e),
                        Ok(d) => if d.index > self.index {
                            Ok(d)
                        } else {
                            Err(ParseError::UnexpectedToken)
                        },
                    },
                },
            },
        }
    }

    /// Rounds until the tokens are used up.
    pub open spec fn run(self, tokens: Seq<TokenView>) -> Result<Seq<UnbalancedView>, ParseError>
        decreases tokens.len() - self.index,
    {
        if self.index >= tokens.len() {
            Ok(self.transactions)
        } else {
            match self.round(tokens) {
                Err(e) => Err(e),
                Ok(next) => if next.index > self.index {
                    next.run(tokens)
                } else {
                    Err(ParseError::UnexpectedToken)
                },
            }
        }
    }
}

/// The transactions that `tokens` spell, or the first violation of the
/// grammar.
pub open spec fn parsed(tokens: Seq<TokenView>) -> Result<Seq<UnbalancedView>, ParseError> {
    (ParserView { transactions: Seq::empty(), index: 0 }).run(tokens)
}

/// Every posting has commodity and amount or neither, and an amount has a
/// positive denominator.
pub open spec fn transactions_wf(transactions: Seq<UnbalancedView>) -> bool {
    forall|i: int, j: int|
        0 <= i < transactions.len() && 0 <= j < transactions[i].postings.len() ==> (
        #[trigger] transactions[i].postings[j]).wf()
}

/// No posting stands on a line after line `bound`.
pub open spec fn postings_below(transactions: Seq<UnbalancedView>, bound: int) -> bool {
    forall|i: int, j: int|
        0 <= i < transactions.len() && 0 <= j < transactions[i].postings.len() ==> (
        #[trigger] transactions[i].postings[j]).line <= bound
}

/// A round of the parser puts postings on lines of tokens only.
pub proof fn lemma_round_lines(state: ParserView, tokens: Seq<TokenView>, bound: int)
    requires
        crate::tokenizer::lines_below(tokens, bound),
        postings_below(state.transactions, bound),
        state.round(tokens) is Ok,
    ensures
        postings_below(state.round(tokens)->Ok_0.transactions, bound),
{
    let a = state.header(tokens)->Ok_0;
    assert(postings_below(a.transactions, bound)) by {
        if a != state {
            assert forall|i: int, j: int|
                0 <= i < a.transactions.len() && 0 <= j
                    < a.transactions[i].postings.len() implies (
            #[trigger] a.transactions[i].postings[j]).line <= bound by {
                if i < state.transactions.len() {
                    assert(a.transactions[i].postings[j] == state.transactions[i].postings[j]);
                }
            }
        }
    }
    let b = a.transaction_comment(tokens)->Ok_0;
    assert(postings_below(b.transactions, bound)) by {
        if b != a {
            assert forall|i: int, j: int|
                0 <= i < b.transactions.len() && 0 <= j
                    < b.transactions[i].postings.len() implies (
            #[trigger] b.transactions[i].postings[j]).line <= bound by {
                assert(b.transactions[i].postings[j] == a.transactions[i].postings[j]);
            }
        }
    }
    let c = b.posting(tokens)->Ok_0;
    assert(postings_below(c.transactions, bound)) by {
        if c != b {
            assert(tokens[b.index].line() <= bound);
            assert forall|i: int, j: int|
                0 <= i < c.transactions.len() && 0 <= j
                    < c.transactions[i].postings.len() implies (
            #[trigger] c.transactions[i].postings[j]).line <= bound by {
                if i < b.transactions.len() - 1 || j < b.transactions[i].postings.len() {
                    assert(c.transactions[i].postings[j] == b.transactions[i].postings[j]);
                }
            }
        }
    }
    let d = c.indented_comment(tokens)->Ok_0;
    assert(postings_below(d.transactions, bound)) by {
        if d != c {
            assert forall|i: int, j: int|
                0 <= i < d.transactions.len() && 0 <= j
                    < d.transactions[i].postings.len() implies (
            #[trigger] d.transactions[i].postings[j]).line <= bound by {
                assert(d.transactions[i].postings[j].line == c.transactions[i].postings[j].line);
            }
        }
    }
}

/// The parser puts postings on lines of tokens only.
pub proof fn lemma_run_lines(state: ParserView, tokens: Seq<TokenView>, bound: int)
    requires
        crate::tokenizer::lines_below(tokens, bound),
        postings_below(state.transactions, bound),
    ensures
        state.run(tokens) matches Ok(read) ==> postings_below(read, bound),
    decreases tokens.len() - state.index,
{
    if state.index < tokens.len() {
        if let Ok(next) = state.round(tokens) {
            lemma_round_lines(state, tokens, bound);
            if next.index > state.index {
                lemma_run_lines(next, tokens, bound);
            }
        }
    }
}

/// A cursor over tokens, with the transactions read so far.
pub struct Parser<'a> {
    pub tokens: &'a [Token],
    pub transactions: Vec<Transaction<UnbalancedPosting>>,
    pub index: usize,
}

impl<'a> Parser<'a> {
    /// What the parser has built of its tokens, and where it reads next.
    pub open spec fn state(&self) -> ParserView {
        ParserView { transactions: self.transactions.deep_view(), index: self.index as int }
    }

    /// The cursor has not left the tokens.
    pub open spec fn wf(&self) -> bool {
        self.index <= self.tokens@.len()
    }

    /// A parser at the first of `tokens`, with nothing read.
    pub fn new(tokens: &'a [Token]) -> (r: Parser<'a>)
        ensures
            r.tokens == tokens,
            r.state() == (ParserView { transactions: Seq::empty(), index: 0 }),
            r.wf(),
    {
        let r = Parser { tokens, transactions: Vec::new(), index: 0 };
        assert(r.transactions.deep_view() =~= Seq::empty());
        r
    }

    /// Reads a transaction header, if a date stands at the cursor.
    ///
    /// A date commits the parser: the state and the description must follow.
    /// On an error nothing is read.
    pub fn parse_transaction_header(&mut self) -> (r: Result<(), ParseError>)
        requires
            old(self).wf(),
        ensures
            final(self).tokens == old(self).tokens,
            final(self).wf(),
            transactions_wf(old(self).state().transactions) ==> transactions_wf(final(self).state().transactions),
            match old(self).state().header(old(self).tokens.deep_view()) {
                Ok(next) => r is Ok && final(self).state() == next,
                Err(e) => r == Err::<(), ParseError>(e) && final(self).state() == old(self).state(),
            },
    {
        let tokens = self.tokens;
        let i = self.index;
        if i >= tokens.len() {
            return Ok(());
        }
        let (line, date) = match &tokens[i] {
            Token::TransactionDate(line, value) => (*line, value.clone()),
            _ => {
                return Ok(());
            },
        };
        if i + 1 >= tokens.len() {
            return Err(ParseError::StateExpected);
        }
        let state = match &tokens[i + 1] {
            Token::TransactionState(_, value) => *value,
            _ => {
                return Err(ParseError::StateExpected);
            },
        };
        let mut next = i + 2;
        let mut code: Option<String> = None;
        if next < tokens.len() {
            if let Token::TransactionCode(_, value) = &tokens[next] {
                code = Some(value.clone());
                next = next + 1;
            }
        }
        if next >= tokens.len() {
            return Err(ParseError::DescriptionExpected);
        }
        let description = match &tokens[next] {
            Token::TransactionDescription(_, value) => value.clone(),
            _ => {
                return Err(ParseError::DescriptionExpected);
            },
        };
        let transaction = Transaction {
            line,
            date,
            state,
            code,
            description,
            comments: Vec::new(),
            postings: Vec::new(),
        };
        proof {
            assert(transaction.comments.deep_view() =~= Seq::empty());
            assert(transaction.postings.deep_view() =~= Seq::empty());
        }
        self.transactions.push(transaction);
        self.index = next + 1;
        proof {
            let before = old(self).transactions.deep_view();
            let now = self.transactions.deep_view();
            assert(now =~= before.push(transaction.deep_view()));
            if transactions_wf(before) {
                assert forall|i: int, j: int|
                    0 <= i < now.len() && 0 <= j < now[i].postings.len() implies (
                #[trigger] now[i].postings[j]).wf() by {
                    assert(now[i].postings[j] == before[i].postings[j]);
                }
            }
        }
        Ok(())
    }

    /// Reads the comment that ends a header line, if one stands at the cursor,
    /// and gives it to the transaction read last.
    pub fn parse_transaction_comment(&mut self) -> (r: Result<(), ParseError>)
        requires
            old(self).wf(),
        ensures
            final(self).tokens == old(self).tokens,
            final(self).wf(),
            transactions_wf(old(self).state().transactions) ==> transactions_wf(final(self).state().transactions),
            match old(self).state().transaction_comment(old(self).tokens.deep_view()) {
                Ok(next) => r is Ok && final(self).state() == next,
                Err(e) => r == Err::<(), ParseError>(e) && final(self).state() == old(self).state(),
            },
    {
        let tokens = self.tokens;
        let i = self.index;
        if i >= tokens.len() {
            return Ok(());
        }
        let comment = match &tokens[i] {
            Token::TransactionComment(line, value) => Comment { line: *line, comment: value.clone() },
            _ => {
                return Ok(());
            },
        };
        match self.transactions.pop() {
            None => Err(ParseError::CommentOutsideTransaction),
            Some(mut last) => {
                let ghost before = last.deep_view();
                last.comments.push(comment);
                proof {
                    assert(last.comments.deep_view() =~= before.comments.push(comment.deep_view()));
                }
                self.transactions.push(last);
                self.index = i + 1;
                proof {
                    let before = old(self).transactions.deep_view();
                    let now = self.transactions.deep_view();
                    assert(now =~= with_transaction_comment(before, comment.deep_view()));
                    if transactions_wf(before) {
                        assert forall|i: int, j: int|
                            0 <= i < now.len() && 0 <= j < now[i].postings.len() implies (
                        #[trigger] now[i].postings[j]).wf() by {
                            assert(now[i].postings[j] == before[i].postings[j]);
                        }
                    }
                }
                Ok(())
            },
        }
    }

    /// Reads a posting, if an account stands at the cursor, and gives it to
    /// the transaction read last.
    ///
    /// A commodity after the account commits the parser: an amount must follow,
    /// and its text must be a decimal literal that fits. Without a commodity the
    /// posting has neither commodity nor amount. On an error nothing is read.
    pub fn parse_posting(&mut self) -> (r: Result<(), ParseError>)
        requires
            old(self).wf(),
        ensures
            final(self).tokens == old(self).tokens,
            final(self).wf(),
            transactions_wf(old(self).state().transactions) ==> transactions_wf(final(self).state().transactions),
            match old(self).state().posting(old(self).tokens.deep_view()) {
                Ok(next) => r is Ok && final(self).state() == next,
                Err(e) => r == Err::<(), ParseError>(e) && final(self).state() == old(self).state(),
            },
    {
        let tokens = self.tokens;
        let i = self.index;
        if i >= tokens.len() {
            return Ok(());
        }
        let (line, account) = match &tokens[i] {
            Token::PostingAccount(line, value) => (*line, value.clone()),
            _ => {
                return Ok(());
            },
        };
        if self.transactions.len() == 0 {
            return Err(ParseError::PostingOutsideTransaction);
        }
        let mut next = i + 1;
        let mut commodity: Option<String> = None;
        let mut amount = None;
        if i + 1 < tokens.len() {
            if let Token::PostingCommodity(_, value) = &tokens[i + 1] {
                if i + 2 >= tokens.len() {
                    return Err(ParseError::AmountNotFound);
                }
                match &tokens[i + 2] {
                    Token::PostingAmount(_, text) => match create_rational(text.as_str()) {
                        Err(DecimalError::Malformed) => {
                            return Err(ParseError::InvalidAmount);
                        },
                        Err(DecimalError::Overflow) => {
                            return Err(ParseError::AmountOverflow);
                        },
                        Ok(a) => {
                            amount = Some(a);
                        },
                    },
                    _ => {
                        return Err(ParseError::NotAnAmount);
                    },
                }
                commodity = Some(value.clone());
                next = i + 3;
            }
        }
        let posting = UnbalancedPosting { line, account, commodity, amount, comments: Vec::new() };
        proof {
            assert(posting.comments.deep_view() =~= Seq::empty());
        }
        let mut last = self.transactions.pop().unwrap();
        let ghost before = last.deep_view();
        last.postings.push(posting);
        proof {
            assert(last.postings.deep_view() =~= before.postings.push(posting.deep_view()));
        }
        self.transactions.push(last);
        self.index = next;
        proof {
            let before = old(self).transactions.deep_view();
            let now = self.transactions.deep_view();
            assert(now =~= with_posting(before, posting.deep_view()));
            assert(posting.deep_view().wf());
            if transactions_wf(before) {
                assert forall|i: int, j: int|
                    0 <= i < now.len() && 0 <= j < now[i].postings.len() implies (
                #[trigger] now[i].postings[j]).wf() by {
                    if i < before.len() - 1 || j < before[i].postings.len() {
                        assert(now[i].postings[j] == before[i].postings[j]);
                    }
                }
            }
        }
        Ok(())
    }

    /// Reads a comment that has a line of its own, if one stands at the
    /// cursor, and gives it to the posting read last, or to the transaction
    /// read last where that has no posting yet.
    pub fn parse_indented_comment(&mut self) -> (r: Result<(), ParseError>)
        requires
            old(self).wf(),
        ensures
            final(self).tokens == old(self).tokens,
            final(self).wf(),
            transactions_wf(old(self).state().transactions) ==> transactions_wf(final(self).state().transactions),
            match old(self).state().indented_comment(old(self).tokens.deep_view()) {
                Ok(next) => r is Ok && final(self).state() == next,
                Err(e) => r == Err::<(), ParseError>(e) && final(self).state() == old(self).state(),
            },
    {
        let tokens = self.tokens;
        let i = self.index;
        if i >= tokens.len() {
            return Ok(());
        }
        let comment = match &tokens[i] {
            Token::IndentedComment(line, value) => Comment { line: *line, comment: value.clone() },
            _ => {
                return Ok(());
            },
        };
        match self.transactions.pop() {
            None => Err(ParseError::CommentOutsideTransaction),
            Some(mut last) => {
                let ghost before = last.deep_view();
                match last.postings.pop() {
                    None => {
                        last.comments.push(comment);
                        proof {
                            assert(last.postings.deep_view() =~= before.postings);
                            assert(last.comments.deep_view() =~= before.comments.push(
                                comment.deep_view(),
                            ));
                        }
                    },
                    Some(mut posting) => {
                        let ghost written = posting.deep_view();
                        posting.comments.push(comment);
                        proof {
                            assert(posting.comments.deep_view() =~= written.comments.push(
                                comment.deep_view(),
                            ));
                        }
                        last.postings.push(posting);
                        proof {
                            assert(last.postings.deep_view() =~= before.postings.drop_last().push(
                                posting.deep_view(),
                            ));
                        }
                    },
                }
                self.transactions.push(last);
                self.index = i + 1;
                proof {
                    let before = old(self).transactions.deep_view();
                    let now = self.transactions.deep_view();
                    assert(now =~= with_indented_comment(before, comment.deep_view()));
                    if transactions_wf(before) {
                        assert forall|i: int, j: int|
                            0 <= i < now.len() && 0 <= j < now[i].postings.len() implies (
                        #[trigger] now[i].postings[j]).wf() by {
                            assert(before[i].postings[j].wf());
                        }
                    }
                }
                Ok(())
            },
        }
    }

    /// One round: a header, its comment, a posting, an indented comment, each
    /// if it is there. Fails where a step fails or where none has read a token.
    pub fn parse_round(&mut self) -> (r: Result<(), ParseError>)
        requires
            old(self).wf(),
        ensures
            final(self).tokens == old(self).tokens,
            final(self).wf(),
            transactions_wf(old(self).state().transactions) ==> transactions_wf(final(self).state().transactions),
            match old(self).state().round(old(self).tokens.deep_view()) {
                Ok(next) => r is Ok && final(self).state() == next,
                Err(e) => r == Err::<(), ParseError>(e),
            },
    {
        let start = self.index;
        match self.parse_transaction_header() {
            Err(e) => {
                return Err(e);
            },
            Ok(()) => {},
        }
        match self.parse_transaction_comment() {
            Err(e) => {
                return Err(e);
            },
            Ok(()) => {},
        }
        match self.parse_posting() {
            Err(e) => {
                return Err(e);
            },
            Ok(()) => {},
        }
        match self.parse_indented_comment() {
            Err(e) => {
                return Err(e);
            },
            Ok(()) => {},
        }
        if self.index > start {
            Ok(())
        } else {
            Err(ParseError::UnexpectedToken)
        }
    }
}

/// Reads `tokens` as a journal and appends its transactions to `transactions`.
///
/// On an error `transactions` keeps what it held.
pub fn parse(tokens: &[Token], transactions: &mut Vec<Transaction<UnbalancedPosting>>) -> (r: Result<
    (),
    ParseError,
>)
    ensures
        match parsed(tokens.deep_view()) {
            Ok(read) => r is Ok && final(transactions).deep_view() == old(transactions).deep_view()
                + read,
            Err(e) => r == Err::<(), ParseError>(e) && final(transactions).deep_view() == old(transactions).deep_view(),
        },
        transactions_wf(old(transactions).deep_view()) ==> transactions_wf(
            final(transactions).deep_view(),
        ),
{
    let mut parser = Parser::new(tokens);
    while parser.index < tokens.len()
        invariant
            parser.wf(),
            parser.tokens == tokens,
            transactions_wf(parser.state().transactions),
            parser.state().run(tokens.deep_view()) == parsed(tokens.deep_view()),
        decreases tokens.len() - parser.index,
    {
        match parser.parse_round() {
            Err(e) => {
                return Err(e);
            },
            Ok(()) => {},
        }
    }
    let mut read = parser.transactions;
    let ghost appended = old(transactions).deep_view() + read.deep_view();
    transactions.append(&mut read);
    proof {
        let before = old(transactions).deep_view();
        let now = transactions.deep_view();
        assert(now =~= appended);
        if transactions_wf(before) {
            assert forall|i: int, j: int|
                0 <= i < now.len() && 0 <= j < now[i].postings.len() implies (
            #[trigger] now[i].postings[j]).wf() by {
                if i < before.len() {
                    assert(now[i].postings[j] == before[i].postings[j]);
                } else {
                    assert(now[i].postings[j] == parser.state().transactions[i - before.len()].postings[j]);
                }
            }
        }
    }
    Ok(())
}

/// The words that report `e` to the user.
pub open spec fn report(e: ParseError) -> Seq<char> {
    "Parse Error : "@ + e.text()
}

/// Reads `tokens` as a journal and appends its transactions to `transactions`,
/// or reports the first violation of the grammar in words.
///
/// On an error `transactions` keeps what it held.
pub fn parse_unbalanced_transactions(
    tokens: &[Token],
    transactions: &mut Vec<Transaction<UnbalancedPosting>>,
) -> (r: Result<(), String>)
    ensures
        match parsed(tokens.deep_view()) {
            Ok(read) => r is Ok && final(transactions).deep_view() == old(transactions).deep_view()
                + read,
            Err(e) => r is Err && r->Err_0@ == report(e) && final(transactions).deep_view() == old(transactions).deep_view(),
        },
        transactions_wf(old(transactions).deep_view()) ==> transactions_wf(
            final(transactions).deep_view(),
        ),
{
    match parse(tokens, transactions) {
        Err(e) => Err(String::from_str("Parse Error : ").concat(e.message().as_str())),
        Ok(()) => Ok(()),
    }
}

} // verus!
