use crate::balancer::{balance_transactions, balanced_all, has_null, lines_fit};
use crate::double_entry::is_closed;
use crate::model::{
    outcome, BalancedPosting, BalancedView, Error, ErrorView, Transaction, UnbalancedPosting,
};
use crate::parser::{
    lemma_run_lines, parse, parsed, postings_below, transactions_wf, ParseError, ParserView,
};
use crate::tokenizer::{tokenize, tokenized};
use vstd::prelude::*;
use vstd::string::StringExecFns;

verus! {

/// The stage at which reading a journal failed, and why.
#[derive(Clone, Debug)]
pub enum JournalError {
    Tokenize(Error),
    Parse(ParseError),
    Balance(Error),
}

/// The mathematical content of a [`JournalError`].
pub enum JournalErrorView {
    Tokenize(ErrorView),
    Parse(ParseError),
    Balance(ErrorView),
}

impl DeepView for JournalError {
    type V = JournalErrorView;

    open spec fn deep_view(&self) -> JournalErrorView {
        match *self {
            JournalError::Tokenize(e) => JournalErrorView::Tokenize(e.deep_view()),
            JournalError::Parse(e) => JournalErrorView::Parse(e),
            JournalError::Balance(e) => JournalErrorView::Balance(e.deep_view()),
        }
    }
}

impl JournalErrorView {
    /// The words that report the error: the stage, then what went wrong.
    pub open spec fn text(self) -> Seq<char> {
        match self {
            JournalErrorView::Tokenize(e) => "Tokenize Error : "@ + e.message,
            JournalErrorView::Parse(e) => "Parse Error : "@ + e.text(),
            JournalErrorView::Balance(e) => "Balance Error : "@ + e.message,
        }
    }

    /// The line that the error is reported at, where it has one.
    pub open spec fn line(self) -> Option<usize> {
        match self {
            JournalErrorView::Tokenize(e) => Some(e.line),
            JournalErrorView::Parse(_) => None,
            JournalErrorView::Balance(e) => Some(e.line),
        }
    }
}

impl JournalError {
    /// The words that report the error: the stage, then what went wrong.
    pub fn message(&self) -> (r: String)
        ensures
            r@ == self.deep_view().text(),
    {
        match self {
            JournalError::Tokenize(e) => String::from_str("Tokenize Error : ").concat(
                e.message.as_str(),
            ),
            JournalError::Parse(e) => String::from_str("Parse Error : ").concat(
                e.message().as_str(),
            ),
            JournalError::Balance(e) => String::from_str("Balance Error : ").concat(
                e.message.as_str(),
            ),
        }
    }

    /// The line that the error is reported at, where it has one.
    pub fn line(&self) -> (r: Option<usize>)
        ensures
            r == self.deep_view().line(),
    {
        match self {
            JournalError::Tokenize(e) => Some(e.line),
            JournalError::Parse(_) => None,
            JournalError::Balance(e) => Some(e.line),
        }
    }
}

/// The balanced transactions of the journal `text`, in source order, or the
/// first failure: the text is taken apart into tokens, the tokens are read
/// as transactions, the transactions are balanced.
pub open spec fn journal_of(text: Seq<char>) -> Result<Seq<BalancedView>, JournalErrorView> {
    match tokenized(text) {
        Err(e) => Err(JournalErrorView::Tokenize(e)),
        Ok(tokens) => match parsed(tokens) {
            Err(e) => Err(JournalErrorView::Parse(e)),
            Ok(transactions) => match balanced_all(transactions) {
                Err(e) => Err(JournalErrorView::Balance(e)),
                Ok(done) => Ok(done),
            },
        },
    }
}

/// The transactions of the journal `text` as written, where it has any.
pub open spec fn written(text: Seq<char>) -> Seq<crate::model::UnbalancedView> {
    parsed(tokenized(text)->Ok_0)->Ok_0
}

/// Reads the journal `text`: its balanced transactions in source order, or
/// the first failure. A failure yields no transaction.
///
/// Every transaction that was written with a posting without an amount comes
/// back with amounts that sum to zero in every commodity.
pub fn read_journal(text: &str) -> (r: Result<Vec<Transaction<BalancedPosting>>, JournalError>)
    requires
        text@.len() < usize::MAX,
    ensures
        outcome(r) == journal_of(text@),
        r matches Ok(done) ==> done.len() == written(text@).len() && forall|k: int|
            0 <= k < done.len() && has_null((#[trigger] written(text@)[k]).postings) ==> is_closed(
                done.deep_view()[k],
            ),
{
    let tokens = match tokenize(text) {
        Err(e) => {
            return Err(JournalError::Tokenize(e));
        },
        Ok(tokens) => tokens,
    };
    let mut unbalanced: Vec<Transaction<UnbalancedPosting>> = Vec::new();
    assert(unbalanced.deep_view() =~= Seq::empty());
    match parse(tokens.as_slice(), &mut unbalanced) {
        Err(e) => {
            return Err(JournalError::Parse(e));
        },
        Ok(()) => {},
    }
    proof {
        let start = ParserView { transactions: Seq::empty(), index: 0 };
        lemma_run_lines(start, tokens.deep_view(), text@.len() as int);
        assert(Seq::<crate::model::UnbalancedView>::empty() + parsed(tokens.deep_view())->Ok_0
            =~= parsed(tokens.deep_view())->Ok_0);
        assert(postings_below(unbalanced.deep_view(), text@.len() as int));
        assert(lines_fit(unbalanced.deep_view()));
        assert(unbalanced.deep_view() == written(text@));
        assert(transactions_wf(unbalanced.deep_view()));
        assert forall|k: int| 0 <= k < unbalanced.len() implies crate::double_entry::postings_wf(
            (#[trigger] unbalanced.deep_view()[k]).postings,
        ) by {
            assert forall|j: int| 0 <= j < unbalanced.deep_view()[k].postings.len() implies (
            #[trigger] unbalanced.deep_view()[k].postings[j]).wf() by {}
        }
    }
    let mut done: Vec<Transaction<BalancedPosting>> = Vec::new();
    assert(done.deep_view() =~= Seq::empty());
    match balance_transactions(unbalanced.as_slice(), &mut done) {
        Err(e) => Err(JournalError::Balance(e)),
        Ok(()) => {
            proof {
                let all = balanced_all(unbalanced.deep_view())->Ok_0;
                assert(Seq::<BalancedView>::empty() + all =~= all);
                crate::balancer::lemma_upto_len(unbalanced.deep_view(), unbalanced.len() as int);
            }
            Ok(done)
        },
    }
}

} // verus!
