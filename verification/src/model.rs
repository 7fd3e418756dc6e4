use crate::amount::Amount;
use vstd::prelude::*;

verus! {

/// Whether a transaction has been reconciled.
#[derive(Clone, Copy, Debug, PartialEq, Eq, Structural)]
pub enum State {
    Cleared,
    Uncleared,
    Pending,
}

/// One lexical element of a journal, with the line it was read from.
#[derive(Clone, Debug)]
pub enum Token {
    TransactionDate(usize, String),
    TransactionState(usize, State),
    TransactionCode(usize, String),
    TransactionDescription(usize, String),
    TransactionComment(usize, String),
    PostingAccount(usize, String),
    PostingCommodity(usize, String),
    PostingAmount(usize, String),
    IndentedComment(usize, String),
}

/// The mathematical content of a [`Token`].
pub enum TokenView {
    TransactionDate(usize, Seq<char>),
    TransactionState(usize, State),
    TransactionCode(usize, Seq<char>),
    TransactionDescription(usize, Seq<char>),
    TransactionComment(usize, Seq<char>),
    PostingAccount(usize, Seq<char>),
    PostingCommodity(usize, Seq<char>),
    PostingAmount(usize, Seq<char>),
    IndentedComment(usize, Seq<char>),
}

impl DeepView for Token {
    type V = TokenView;

    open spec fn deep_view(&self) -> TokenView {
        match *self {
            Token::TransactionDate(l, s) => TokenView::TransactionDate(l, s@),
            Token::TransactionState(l, s) => TokenView::TransactionState(l, s),
            Token::TransactionCode(l, s) => TokenView::TransactionCode(l, s@),
            Token::TransactionDescription(l, s) => TokenView::TransactionDescription(l, s@),
            Token::TransactionComment(l, s) => TokenView::TransactionComment(l, s@),
            Token::PostingAccount(l, s) => TokenView::PostingAccount(l, s@),
            Token::PostingCommodity(l, s) => TokenView::PostingCommodity(l, s@),
            Token::PostingAmount(l, s) => TokenView::PostingAmount(l, s@),
            Token::IndentedComment(l, s) => TokenView::IndentedComment(l, s@),
        }
    }
}

impl TokenView {
    /// The source line of the token.
    pub open spec fn line(self) -> usize {
        match self {
            TokenView::TransactionDate(l, _) => l,
            TokenView::TransactionState(l, _) => l,
            TokenView::TransactionCode(l, _) => l,
            TokenView::TransactionDescription(l, _) => l,
            TokenView::TransactionComment(l, _) => l,
            TokenView::PostingAccount(l, _) => l,
            TokenView::PostingCommodity(l, _) => l,
            TokenView::PostingAmount(l, _) => l,
            TokenView::IndentedComment(l, _) => l,
        }
    }
}

/// A remark in the journal, attached to a transaction or to a posting.
#[derive(Clone, Debug)]
pub struct Comment {
    pub line: usize,
    pub comment: String,
}

/// The mathematical content of a [`Comment`].
pub struct CommentView {
    pub line: usize,
    pub comment: Seq<char>,
}

impl DeepView for Comment {
    type V = CommentView;

    open spec fn deep_view(&self) -> CommentView {
        CommentView { line: self.line, comment: self.comment@ }
    }
}

/// A copy of `comments`.
pub fn copy_comments(comments: &Vec<Comment>) -> (r: Vec<Comment>)
    ensures
        r.deep_view() == comments.deep_view(),
{
    let mut out: Vec<Comment> = Vec::new();
    let mut i: usize = 0;
    while i < comments.len()
        invariant
            i <= comments.len(),
            out.len() == i,
            forall|k: int| 0 <= k < i ==> out[k].deep_view() == comments[k].deep_view(),
        decreases comments.len() - i,
    {
        out.push(Comment { line: comments[i].line, comment: comments[i].comment.clone() });
        i += 1;
    }
    assert(out.deep_view() =~= comments.deep_view());
    out
}

/// A copy of `text`, if there is one.
pub fn copy_text(text: &Option<String>) -> (r: Option<String>)
    ensures
        r.deep_view() == text.deep_view(),
{
    match text {
        Some(t) => Some(t.clone()),
        None => None,
    }
}

/// A posting as it was written: commodity and amount may both be missing.
#[derive(Clone, Debug)]
pub struct UnbalancedPosting {
    pub line: usize,
    pub account: String,
    pub commodity: Option<String>,
    pub amount: Option<Amount>,
    pub comments: Vec<Comment>,
}

/// The mathematical content of an [`UnbalancedPosting`].
pub struct UnbalancedPostingView {
    pub line: usize,
    pub account: Seq<char>,
    pub commodity: Option<Seq<char>>,
    pub amount: Option<Amount>,
    pub comments: Seq<CommentView>,
}

impl UnbalancedPostingView {
    /// Commodity and amount are both there or both missing, and an amount that
    /// is there has a positive denominator.
    pub open spec fn wf(self) -> bool {
        &&& self.commodity is Some <==> self.amount is Some
        &&& self.amount matches Some(a) ==> a.wf()
    }

    /// The posting states its own commodity and amount.
    pub open spec fn is_explicit(self) -> bool {
        self.commodity is Some && self.amount is Some
    }
}

impl DeepView for UnbalancedPosting {
    type V = UnbalancedPostingView;

    open spec fn deep_view(&self) -> UnbalancedPostingView {
        UnbalancedPostingView {
            line: self.line,
            account: self.account@,
            commodity: self.commodity.deep_view(),
            amount: self.amount,
            comments: self.comments.deep_view(),
        }
    }
}

/// A posting whose commodity and amount are known.
#[derive(Clone, Debug)]
pub struct BalancedPosting {
    pub account: String,
    pub commodity: String,
    pub amount: Amount,
    pub comments: Vec<Comment>,
}

/// The mathematical content of a [`BalancedPosting`].
pub struct BalancedPostingView {
    pub account: Seq<char>,
    pub commodity: Seq<char>,
    pub amount: Amount,
    pub comments: Seq<CommentView>,
}

impl DeepView for BalancedPosting {
    type V = BalancedPostingView;

    open spec fn deep_view(&self) -> BalancedPostingView {
        BalancedPostingView {
            account: self.account@,
            commodity: self.commodity@,
            amount: self.amount,
            comments: self.comments.deep_view(),
        }
    }
}

/// A dated entry of the journal with its postings.
#[derive(Clone, Debug)]
pub struct Transaction<P> {
    pub line: usize,
    pub date: String,
    pub state: State,
    pub code: Option<String>,
    pub description: String,
    pub comments: Vec<Comment>,
    pub postings: Vec<P>,
}

/// The mathematical content of a [`Transaction`].
pub struct TransactionView<V> {
    pub line: usize,
    pub date: Seq<char>,
    pub state: State,
    pub code: Option<Seq<char>>,
    pub description: Seq<char>,
    pub comments: Seq<CommentView>,
    pub postings: Seq<V>,
}

impl<P: DeepView> DeepView for Transaction<P> {
    type V = TransactionView<P::V>;

    open spec fn deep_view(&self) -> TransactionView<P::V> {
        TransactionView {
            line: self.line,
            date: self.date@,
            state: self.state,
            code: self.code.deep_view(),
            description: self.description@,
            comments: self.comments.deep_view(),
            postings: self.postings.deep_view(),
        }
    }
}

/// A transaction whose postings are as written.
pub type UnbalancedView = TransactionView<UnbalancedPostingView>;

/// A transaction whose postings all have commodity and amount.
pub type BalancedView = TransactionView<BalancedPostingView>;

/// The mathematical content of a result.
pub open spec fn outcome<T: DeepView, E: DeepView>(r: Result<T, E>) -> Result<T::V, E::V> {
    match r {
        Ok(t) => Ok(t.deep_view()),
        Err(e) => Err(e.deep_view()),
    }
}

/// A failure with the line it is reported at.
#[derive(Clone, Debug)]
pub struct Error {
    pub line: usize,
    pub message: String,
}

/// The mathematical content of an [`Error`].
pub struct ErrorView {
    pub line: usize,
    pub message: Seq<char>,
}

impl DeepView for Error {
    type V = ErrorView;

    open spec fn deep_view(&self) -> ErrorView {
        ErrorView { line: self.line, message: self.message@ }
    }
}

} // verus!
