use crate::amount::Amount;
use crate::format::format_amount;
use crate::model::{
    copy_comments, copy_text, BalancedPosting, BalancedPostingView, BalancedView, Comment,
    CommentView, State, Transaction, TransactionView, UnbalancedPosting, UnbalancedPostingView,
    UnbalancedView,
};
use vstd::prelude::*;
use vstd::string::{StrSliceExecFns, StringExecFns};

verus! {

/// The columns between the longest account and the amounts.
pub const OFFSET: usize = 4;

/// A posting as it is printed: its amount is shown or left out.
#[derive(Clone, Debug)]
pub struct PrintedPosting {
    pub account: String,
    pub shown: Option<(String, Amount)>,
    pub comments: Vec<Comment>,
}

/// The mathematical content of a [`PrintedPosting`].
pub struct PrintedPostingView {
    pub account: Seq<char>,
    pub shown: Option<(Seq<char>, Amount)>,
    pub comments: Seq<CommentView>,
}

impl DeepView for PrintedPosting {
    type V = PrintedPostingView;

    open spec fn deep_view(&self) -> PrintedPostingView {
        PrintedPostingView {
            account: self.account@,
            shown: match self.shown {
                Some((commodity, amount)) => Some((commodity@, amount)),
                None => None,
            },
            comments: self.comments.deep_view(),
        }
    }
}

/// A transaction as it is printed.
pub type PrintedView = TransactionView<PrintedPostingView>;

/// `n` spaces.
pub open spec fn spaces(n: nat) -> Seq<char> {
    Seq::new(n, |i: int| ' ')
}

/// What stands between the date and the rest of a header.
pub open spec fn state_text(state: State) -> Seq<char> {
    match state {
        State::Cleared => " * "@,
        State::Uncleared => " "@,
        State::Pending => " ! "@,
    }
}

/// The code in brackets and a space, or nothing.
pub open spec fn code_text(code: Option<Seq<char>>) -> Seq<char> {
    match code {
        Some(c) => "("@ + c + ") "@,
        None => Seq::empty(),
    }
}

/// The header line of a transaction.
pub open spec fn head_text(t: PrintedView) -> Seq<char> {
    t.date + state_text(t.state) + code_text(t.code) + t.description + "\n"@
}

/// One indented line for each of the first `n` comments.
pub open spec fn comment_lines(comments: Seq<CommentView>, n: int) -> Seq<char>
    decreases n,
{
    if n <= 0 {
        Seq::empty()
    } else {
        comment_lines(comments, n - 1) + "\t; "@ + comments[n - 1].comment + "\n"@
    }
}

/// The amount with a space before it, or with its sign in that place.
pub open spec fn signed_text(amount: Amount) -> Seq<char> {
    if amount.spec_numer() < 0 {
        amount.text()
    } else {
        " "@ + amount.text()
    }
}

/// The amount of a posting, where it is shown, in the column that begins
/// `OFFSET` columns after an account of `width` characters.
pub open spec fn amount_part(p: PrintedPostingView, width: nat) -> Seq<char> {
    match p.shown {
        Some((commodity, amount)) => spaces((width + OFFSET - p.account.len()) as nat) + commodity
            + signed_text(amount),
        None => Seq::empty(),
    }
}

/// The line of a posting and the lines of its comments.
pub open spec fn posting_text(p: PrintedPostingView, width: nat) -> Seq<char> {
    "\t"@ + p.account + amount_part(p, width) + "\n"@ + comment_lines(
        p.comments,
        p.comments.len() as int,
    )
}

/// The lines of the first `n` postings.
pub open spec fn posting_lines(postings: Seq<PrintedPostingView>, width: nat, n: int) -> Seq<char>
    decreases n,
{
    if n <= 0 {
        Seq::empty()
    } else {
        posting_lines(postings, width, n - 1) + posting_text(postings[n - 1], width)
    }
}

/// The lines of a transaction: header, comments, postings.
pub open spec fn transaction_text(t: PrintedView, width: nat) -> Seq<char> {
    head_text(t) + comment_lines(t.comments, t.comments.len() as int) + posting_lines(
        t.postings,
        width,
        t.postings.len() as int,
    )
}

/// The first `n` transactions, with an empty line between two of them.
pub open spec fn journal_text(ts: Seq<PrintedView>, width: nat, n: int) -> Seq<char>
    decreases n,
{
    if n <= 0 {
        Seq::empty()
    } else if n == 1 {
        transaction_text(ts[0], width)
    } else {
        journal_text(ts, width, n - 1) + "\n"@ + transaction_text(ts[n - 1], width)
    }
}

/// The length of the longest account among the first `n` postings, or `least`
/// where that is longer.
pub open spec fn widest_account(postings: Seq<PrintedPostingView>, least: nat, n: int) -> nat
    decreases n,
{
    if n <= 0 {
        least
    } else {
        let before = widest_account(postings, least, n - 1);
        if postings[n - 1].account.len() > before {
            postings[n - 1].account.len()
        } else {
            before
        }
    }
}

/// The length of the longest account among the postings of the first `n`
/// transactions.
pub open spec fn account_width(ts: Seq<PrintedView>, n: int) -> nat
    decreases n,
{
    if n <= 0 {
        0
    } else {
        widest_account(ts[n - 1].postings, account_width(ts, n - 1), ts[n - 1].postings.len() as int)
    }
}

/// One of the transactions has no posting.
pub open spec fn has_empty(ts: Seq<PrintedView>) -> bool {
    exists|i: int| 0 <= i < ts.len() && (#[trigger] ts[i]).postings.len() == 0
}

/// What the print commands show of a journal: nothing where a transaction
/// has no posting, else the transactions with their amounts in one column.
pub open spec fn printed(ts: Seq<PrintedView>) -> Seq<char> {
    if has_empty(ts) {
        Seq::empty()
    } else {
        journal_text(ts, account_width(ts, ts.len() as int), ts.len() as int)
    }
}

/// A balanced posting as it is printed: with its amount.
pub open spec fn shown_balanced(p: BalancedPostingView) -> PrintedPostingView {
    PrintedPostingView {
        account: p.account,
        shown: Some((p.commodity, p.amount)),
        comments: p.comments,
    }
}

/// A posting as written as it is printed: with its amount where it states
/// one.
pub open spec fn shown_unbalanced(p: UnbalancedPostingView) -> PrintedPostingView {
    PrintedPostingView {
        account: p.account,
        shown: if p.is_explicit() {
            Some((p.commodity->0, p.amount->0))
        } else {
            None
        },
        comments: p.comments,
    }
}

/// A balanced transaction as it is printed.
pub open spec fn explicit_view(t: BalancedView) -> PrintedView {
    TransactionView {
        line: t.line,
        date: t.date,
        state: t.state,
        code: t.code,
        description: t.description,
        comments: t.comments,
        postings: Seq::new(t.postings.len(), |i: int| shown_balanced(t.postings[i])),
    }
}

/// A transaction as written as it is printed.
pub open spec fn raw_view(t: UnbalancedView) -> PrintedView {
    TransactionView {
        line: t.line,
        date: t.date,
        state: t.state,
        code: t.code,
        description: t.description,
        comments: t.comments,
        postings: Seq::new(t.postings.len(), |i: int| shown_unbalanced(t.postings[i])),
    }
}

/// Balanced transactions as they are printed.
pub open spec fn explicit_views(ts: Seq<BalancedView>) -> Seq<PrintedView> {
    Seq::new(ts.len(), |i: int| explicit_view(ts[i]))
}

/// Transactions as written as they are printed.
pub open spec fn raw_views(ts: Seq<UnbalancedView>) -> Seq<PrintedView> {
    Seq::new(ts.len(), |i: int| raw_view(ts[i]))
}

/// Appends the header line of `transaction`.
pub fn print_transaction_head(out: &mut String, transaction: &Transaction<PrintedPosting>)
    ensures
        final(out)@ == old(out)@ + head_text(transaction.deep_view()),
{
    out.append(transaction.date.as_str());
    match transaction.state {
        State::Cleared => out.append(" * "),
        State::Uncleared => out.append(" "),
        State::Pending => out.append(" ! "),
    }
    let ghost coded = out@;
    match &transaction.code {
        Some(code) => {
            out.append("(");
            out.append(code.as_str());
            out.append(") ");
            assert(out@ =~= coded + code_text(transaction.deep_view().code));
        },
        None => {
            assert(out@ =~= coded + code_text(transaction.deep_view().code));
        },
    }
    out.append(transaction.description.as_str());
    out.append("\n");
    assert(out@ =~= old(out)@ + head_text(transaction.deep_view()));
}

/// Appends one indented line for each comment of `transaction`.
pub fn print_transaction_comments(out: &mut String, transaction: &Transaction<PrintedPosting>)
    ensures
        final(out)@ == old(out)@ + comment_lines(
            transaction.deep_view().comments,
            transaction.comments.len() as int,
        ),
{
    print_comments(out, &transaction.comments);
}

/// Appends one indented line for each comment of `posting`.
pub fn print_posting_comments(out: &mut String, posting: &PrintedPosting)
    ensures
        final(out)@ == old(out)@ + comment_lines(
            posting.deep_view().comments,
            posting.comments.len() as int,
        ),
{
    print_comments(out, &posting.comments);
}

/// Appends one indented line for each of `comments`.
fn print_comments(out: &mut String, comments: &Vec<Comment>)
    ensures
        final(out)@ == old(out)@ + comment_lines(comments.deep_view(), comments.len() as int),
{
    let mut i: usize = 0;
    assert(out@ =~= old(out)@ + comment_lines(comments.deep_view(), 0));
    while i < comments.len()
        invariant
            i <= comments.len(),
            out@ == old(out)@ + comment_lines(comments.deep_view(), i as int),
        decreases comments.len() - i,
    {
        let ghost before = out@;
        out.append("\t; ");
        out.append(comments[i].comment.as_str());
        out.append("\n");
        assert(comments.deep_view()[i as int].comment == comments[i as int].comment@);
        assert(out@ =~= old(out)@ + comment_lines(comments.deep_view(), i + 1));
        i += 1;
    }
}

/// Appends `n` spaces.
fn print_spaces(out: &mut String, n: usize)
    ensures
        final(out)@ == old(out)@ + spaces(n as nat),
{
    let mut i: usize = 0;
    assert(out@ =~= old(out)@ + spaces(0));
    while i < n
        invariant
            i <= n,
            out@ == old(out)@ + spaces(i as nat),
        decreases n - i,
    {
        out.push(' ');
        assert(out@ =~= old(out)@ + spaces((i + 1) as nat));
        i += 1;
    }
}

/// Appends the indented account of `posting`.
pub fn print_account(out: &mut String, posting: &PrintedPosting)
    ensures
        final(out)@ == old(out)@ + "\t"@ + posting.account@,
{
    out.append("\t");
    out.append(posting.account.as_str());
}

/// Appends `commodity` and `amount` in the column that begins `OFFSET`
/// columns after an account of `width` characters, for an account of `used`
/// characters.
pub fn print_mixed_amount(
    out: &mut String,
    used: usize,
    width: usize,
    commodity: &String,
    amount: &Amount,
)
    requires
        used <= width + OFFSET,
    ensures
        final(out)@ == old(out)@ + spaces((width + OFFSET - used) as nat) + commodity@
            + signed_text(*amount),
{
    if used <= width {
        print_spaces(out, width - used);
        print_spaces(out, OFFSET);
        assert(out@ =~= old(out)@ + spaces((width + OFFSET - used) as nat));
    } else {
        print_spaces(out, OFFSET - (used - width));
    }
    out.append(commodity.as_str());
    let text = format_amount(amount);
    let ghost before = out@;
    if amount.numer() >= 0 {
        out.append(" ");
    }
    out.append(text.as_str());
    assert(out@ =~= before + signed_text(*amount));
}

/// Appends the amount of `posting`, where it is shown, and ends the line.
pub fn print_amount(out: &mut String, posting: &PrintedPosting, width: usize)
    requires
        posting.account@.len() <= width + OFFSET,
    ensures
        final(out)@ == old(out)@ + amount_part(posting.deep_view(), width as nat) + "\n"@,
{
    match &posting.shown {
        Some((commodity, amount)) => {
            let used = posting.account.as_str().unicode_len();
            print_mixed_amount(out, used, width, commodity, amount);
        },
        None => {
            assert(out@ =~= old(out)@ + amount_part(posting.deep_view(), width as nat));
        },
    }
    out.append("\n");
}

/// Appends the line of `posting` and the lines of its comments.
pub fn print_posting(out: &mut String, posting: &PrintedPosting, width: usize)
    requires
        posting.account@.len() <= width + OFFSET,
    ensures
        final(out)@ == old(out)@ + posting_text(posting.deep_view(), width as nat),
{
    print_account(out, posting);
    print_amount(out, posting, width);
    print_posting_comments(out, posting);
    assert(out@ =~= old(out)@ + posting_text(posting.deep_view(), width as nat));
}

/// The first `n` postings have accounts that end before the column of the
/// amounts: of at most `width` and `OFFSET` characters.
pub open spec fn accounts_fit(postings: Seq<PrintedPostingView>, width: nat, n: int) -> bool {
    forall|j: int| 0 <= j < n ==> (#[trigger] postings[j]).account.len() <= width + OFFSET
}

/// The widest account is at least as wide as `least` and as every account.
pub proof fn lemma_widest_account(postings: Seq<PrintedPostingView>, least: nat, n: int)
    requires
        0 <= n <= postings.len(),
    ensures
        least <= widest_account(postings, least, n),
        accounts_fit(postings, widest_account(postings, least, n), n),
    decreases n,
{
    if n > 0 {
        lemma_widest_account(postings, least, n - 1);
    }
}

/// The account width of more transactions is no smaller, and every account of
/// the transactions counted fits in it.
pub proof fn lemma_account_width(ts: Seq<PrintedView>, i: int, n: int)
    requires
        0 <= i < n <= ts.len(),
    ensures
        accounts_fit(ts[i].postings, account_width(ts, n), ts[i].postings.len() as int),
    decreases n,
{
    lemma_widest_account(ts[n - 1].postings, account_width(ts, n - 1), ts[n - 1].postings.len() as int);
    if i < n - 1 {
        lemma_account_width(ts, i, n - 1);
    }
}

/// Appends the lines of `transaction`: header, comments, postings.
pub fn print_transaction(out: &mut String, transaction: &Transaction<PrintedPosting>, width: usize)
    requires
        accounts_fit(
            transaction.deep_view().postings,
            width as nat,
            transaction.postings.len() as int,
        ),
    ensures
        final(out)@ == old(out)@ + transaction_text(transaction.deep_view(), width as nat),
{
    let ghost view = transaction.deep_view();
    print_transaction_head(out, transaction);
    print_transaction_comments(out, transaction);
    let ghost begun = out@;
    let mut i: usize = 0;
    assert(out@ =~= begun + posting_lines(view.postings, width as nat, 0));
    while i < transaction.postings.len()
        invariant
            i <= transaction.postings.len(),
            view == transaction.deep_view(),
            accounts_fit(view.postings, width as nat, transaction.postings.len() as int),
            out@ == begun + posting_lines(view.postings, width as nat, i as int),
        decreases transaction.postings.len() - i,
    {
        assert(view.postings[i as int] == transaction.postings[i as int].deep_view());
        print_posting(out, &transaction.postings[i], width);
        assert(out@ =~= begun + posting_lines(view.postings, width as nat, i + 1));
        i += 1;
    }
    assert(out@ =~= old(out)@ + transaction_text(view, width as nat));
}

/// The length of the longest account among the postings of `transactions`.
pub fn widest(transactions: &Vec<Transaction<PrintedPosting>>) -> (width: usize)
    ensures
        width == account_width(transactions.deep_view(), transactions.len() as int),
{
    let ghost ts = transactions.deep_view();
    let mut width: usize = 0;
    let mut i: usize = 0;
    while i < transactions.len()
        invariant
            i <= transactions.len(),
            ts == transactions.deep_view(),
            width == account_width(ts, i as int),
        decreases transactions.len() - i,
    {
        let transaction = &transactions[i];
        let ghost least = width as nat;
        let ghost postings = ts[i as int].postings;
        assert(postings == transaction.postings.deep_view());
        let mut j: usize = 0;
        while j < transaction.postings.len()
            invariant
                j <= transaction.postings.len(),
                postings == transaction.postings.deep_view(),
                width == widest_account(postings, least, j as int),
            decreases transaction.postings.len() - j,
        {
            assert(postings[j as int] == transaction.postings[j as int].deep_view());
            let used = transaction.postings[j].account.as_str().unicode_len();
            if used > width {
                width = used;
            }
            j += 1;
        }
        i += 1;
    }
    width
}

/// The journal as text: the transactions one after the other, an empty line
/// between two of them and the amounts in one column, `OFFSET` columns after
/// the longest account.
pub fn print(transactions: &Vec<Transaction<PrintedPosting>>) -> (r: String)
    ensures
        r@ == journal_text(
            transactions.deep_view(),
            account_width(transactions.deep_view(), transactions.len() as int),
            transactions.len() as int,
        ),
{
    let ghost ts = transactions.deep_view();
    let mut out = String::new();
    let width = widest(transactions);
    let mut i: usize = 0;
    while i < transactions.len()
        invariant
            i <= transactions.len(),
            ts == transactions.deep_view(),
            width == account_width(ts, ts.len() as int),
            out@ == journal_text(ts, width as nat, i as int),
        decreases transactions.len() - i,
    {
        proof {
            lemma_account_width(ts, i as int, ts.len() as int);
            assert(ts[i as int] == transactions[i as int].deep_view());
        }
        if i > 0 {
            out.append("\n");
        }
        print_transaction(&mut out, &transactions[i], width);
        proof {
            if i == 0 {
                assert(out@ =~= transaction_text(ts[0], width as nat));
            }
        }
        i += 1;
    }
    out
}

/// Whether one of `transactions` has no posting.
fn any_without_postings<P>(transactions: &Vec<Transaction<P>>) -> (r: bool)
    ensures
        r == exists|i: int|
            0 <= i < transactions.len() && (#[trigger] transactions[i]).postings.len() == 0,
{
    let mut i: usize = 0;
    while i < transactions.len()
        invariant
            i <= transactions.len(),
            forall|k: int| 0 <= k < i ==> (#[trigger] transactions[k]).postings.len() != 0,
        decreases transactions.len() - i,
    {
        if transactions[i].postings.len() == 0 {
            return true;
        }
        i += 1;
    }
    false
}

/// A copy of `posting` as it is printed: with its amount.
fn printed_balanced(posting: &BalancedPosting) -> (r: PrintedPosting)
    ensures
        r.deep_view() == shown_balanced(posting.deep_view()),
{
    PrintedPosting {
        account: posting.account.clone(),
        shown: Some((posting.commodity.clone(), posting.amount)),
        comments: copy_comments(&posting.comments),
    }
}

/// A copy of `posting` as it is printed: with its amount where it states
/// one.
fn printed_unbalanced(posting: &UnbalancedPosting) -> (r: PrintedPosting)
    ensures
        r.deep_view() == shown_unbalanced(posting.deep_view()),
{
    let shown = match (&posting.commodity, posting.amount) {
        (Some(commodity), Some(amount)) => Some((commodity.clone(), amount)),
        _ => None,
    };
    PrintedPosting {
        account: posting.account.clone(),
        shown,
        comments: copy_comments(&posting.comments),
    }
}

/// A copy of `transaction` as it is printed, with `postings` for its own.
fn printed_with<P>(transaction: &Transaction<P>, postings: Vec<PrintedPosting>) -> (r: Transaction<
    PrintedPosting,
>)
    ensures
        r.line == transaction.line,
        r.date@ == transaction.date@,
        r.state == transaction.state,
        r.code.deep_view() == transaction.code.deep_view(),
        r.description@ == transaction.description@,
        r.comments.deep_view() == transaction.comments.deep_view(),
        r.postings == postings,
{
    Transaction {
        line: transaction.line,
        date: transaction.date.clone(),
        state: transaction.state,
        code: copy_text(&transaction.code),
        description: transaction.description.clone(),
        comments: copy_comments(&transaction.comments),
        postings,
    }
}

/// The balanced journal as text, every amount shown: nothing where a
/// transaction has no posting, else the transactions one after the other, an
/// empty line between two of them and the amounts in one column.
pub fn print_explicit(transactions: &Vec<Transaction<BalancedPosting>>) -> (r: String)
    ensures
        r@ == printed(explicit_views(transactions.deep_view())),
{
    let ghost ts = transactions.deep_view();
    let empty = any_without_postings(transactions);
    proof {
        let views = explicit_views(ts);
        assert forall|i: int| 0 <= i < transactions.len() implies (#[trigger] views[i]).postings.len()
            == transactions[i].postings.len() by {
            assert(ts[i] == transactions[i].deep_view());
        }
        if empty {
            let i = choose|i: int|
                0 <= i < transactions.len() && (#[trigger] transactions[i]).postings.len() == 0;
            assert(views[i].postings.len() == 0);
        }
        if has_empty(views) {
            let i = choose|i: int| 0 <= i < views.len() && (#[trigger] views[i]).postings.len() == 0;
            assert(transactions[i].postings.len() == 0);
        }
        assert(empty == has_empty(views));
    }
    if empty {
        return String::new();
    }
    let mut entries: Vec<Transaction<PrintedPosting>> = Vec::new();
    let mut i: usize = 0;
    while i < transactions.len()
        invariant
            i <= transactions.len(),
            ts == transactions.deep_view(),
            entries.len() == i,
            forall|k: int| 0 <= k < i ==> (#[trigger] entries[k]).deep_view() == explicit_view(ts[k]),
        decreases transactions.len() - i,
    {
        let transaction = &transactions[i];
        assert(ts[i as int] == transaction.deep_view());
        let mut postings: Vec<PrintedPosting> = Vec::new();
        let mut j: usize = 0;
        while j < transaction.postings.len()
            invariant
                j <= transaction.postings.len(),
                postings.len() == j,
                forall|k: int|
                    0 <= k < j ==> (#[trigger] postings[k]).deep_view() == shown_balanced(
                        transaction.postings[k].deep_view(),
                    ),
            decreases transaction.postings.len() - j,
        {
            postings.push(printed_balanced(&transaction.postings[j]));
            j += 1;
        }
        let entry = printed_with(transaction, postings);
        assert(entry.deep_view().postings =~= explicit_view(ts[i as int]).postings);
        entries.push(entry);
        i += 1;
    }
    assert(entries.deep_view() =~= explicit_views(ts));
    print(&entries)
}

/// The journal as written as text, amounts shown where they are stated:
/// nothing where a transaction has no posting, else the transactions one
/// after the other, an empty line between two of them and the amounts in one
/// column.
pub fn print_raw(transactions: &Vec<Transaction<UnbalancedPosting>>) -> (r: String)
    ensures
        r@ == printed(raw_views(transactions.deep_view())),
{
    let ghost ts = transactions.deep_view();
    let empty = any_without_postings(transactions);
    proof {
        let views = raw_views(ts);
        assert forall|i: int| 0 <= i < transactions.len() implies (#[trigger] views[i]).postings.len()
            == transactions[i].postings.len() by {
            assert(ts[i] == transactions[i].deep_view());
        }
        if empty {
            let i = choose|i: int|
                0 <= i < transactions.len() && (#[trigger] transactions[i]).postings.len() == 0;
            assert(views[i].postings.len() == 0);
        }
        if has_empty(views) {
            let i = choose|i: int| 0 <= i < views.len() && (#[trigger] views[i]).postings.len() == 0;
            assert(transactions[i].postings.len() == 0);
        }
        assert(empty == has_empty(views));
    }
    if empty {
        return String::new();
    }
    let mut entries: Vec<Transaction<PrintedPosting>> = Vec::new();
    let mut i: usize = 0;
    while i < transactions.len()
        invariant
            i <= transactions.len(),
            ts == transactions.deep_view(),
            entries.len() == i,
            forall|k: int| 0 <= k < i ==> (#[trigger] entries[k]).deep_view() == raw_view(ts[k]),
        decreases transactions.len() - i,
    {
        let transaction = &transactions[i];
        assert(ts[i as int] == transaction.deep_view());
        let mut postings: Vec<PrintedPosting> = Vec::new();
        let mut j: usize = 0;
        while j < transaction.postings.len()
            invariant
                j <= transaction.postings.len(),
                postings.len() == j,
                forall|k: int|
                    0 <= k < j ==> (#[trigger] postings[k]).deep_view() == shown_unbalanced(
                        transaction.postings[k].deep_view(),
                    ),
            decreases transaction.postings.len() - j,
        {
            postings.push(printed_unbalanced(&transaction.postings[j]));
            j += 1;
        }
        let entry = printed_with(transaction, postings);
        assert(entry.deep_view().postings =~= raw_view(ts[i as int]).postings);
        entries.push(entry);
        i += 1;
    }
    assert(entries.deep_view() =~= raw_views(ts));
    print(&entries)
}

} // verus!
