//! The command line of the shell: how a line falls into tokens, which
//! sentences it understands, and what it offers to complete a line that is
//! not yet a sentence.

use vstd::prelude::*;

use crate::account::{Account, AccountType, AccountView};
use crate::amount::{num_of_text, Amount};
use crate::amounts::sheet_text;
use crate::command::{AccountModification, Command, CommandView, ModificationView};
use crate::currency::Currency;
use crate::id::{AccountId, Id};
use crate::ledger::account_views;
use crate::repository::remote::first_with;
use crate::text::{chars_of, push_all, push_str, same_chars, slice_of, string_of, views};
use crate::transaction::{Transaction, TransactionInner, TransactionInnerView, TransactionView};

verus! {

/// What a token of the line was understood as.
#[derive(Debug, Clone, Copy, PartialEq, Eq, Structural)]
pub enum TokenType {
    /// A word of the command language.
    Command,
    /// A free text.
    String,
    /// The identifier of an account.
    Id,
    /// A number of an amount, or its currency.
    Amount,
    /// Nothing that fits where it stands.
    Invalid,
    /// White space between words.
    Whitespace,
}

/// Whether a character is white space, as `char::is_whitespace` tells.
pub uninterp spec fn is_white(c: char) -> bool;

/// `char::is_whitespace` of the standard library: whether the character is
/// white space, which is what `is_white` names.
#[verifier::external_body]
fn is_whitespace(c: char) -> (r: bool)
    ensures
        r == is_white(c),
{
    c.is_whitespace()
}

/// Whether the character at position `i` stands within a quoted text that
/// is still open: whether an odd number of double quotes stand before it.
pub open spec fn in_string_before(s: Seq<char>, i: int) -> bool
    decreases i,
{
    if i <= 0 {
        false
    } else {
        in_string_before(s, i - 1) != (s[i - 1] == '"')
    }
}

/// The class of the character at position `i`: 2 for a double quote and for
/// what stands within quotes, 1 for white space, 0 for the rest.
pub open spec fn class_at(s: Seq<char>, i: int) -> int {
    if s[i] == '"' || in_string_before(s, i) {
        2
    } else if is_white(s[i]) {
        1
    } else {
        0
    }
}

/// The tokens of the first `n` characters of a line, each by the positions
/// of its first and its last character: neighbours of one class form one
/// token.
pub open spec fn pieces(s: Seq<char>, n: int) -> Seq<(int, int)>
    decreases n,
{
    if n <= 0 {
        Seq::empty()
    } else {
        let before = pieces(s, n - 1);
        let i = n - 1;
        if i > 0 && class_at(s, i - 1) == class_at(s, i) {
            before.drop_last().push((before.last().0, i))
        } else {
            before.push((i, i))
        }
    }
}

/// Whether every character of `s` is white space.
pub open spec fn all_white(s: Seq<char>) -> bool {
    forall|i: int| 0 <= i < s.len() ==> is_white(#[trigger] s[i])
}

/// Whether the exact bounds stand for the given pieces.
pub open spec fn same_bounds(bounds: Seq<(usize, usize)>, pieces: Seq<(int, int)>) -> bool {
    bounds.len() == pieces.len() && forall|i: int|
        0 <= i < bounds.len() ==> (#[trigger] bounds[i]).0 == pieces[i].0 && bounds[i].1
            == pieces[i].1
}

/// Whether the token at position `j` begins right where the one before it
/// ends.
pub open spec fn follows(bounds: Seq<(usize, usize)>, j: int) -> bool {
    bounds[j].0 == bounds[j - 1].1 + 1
}

/// The tokens of a line, each by the positions of its first and its last
/// character. The tokens cover the line without gaps, in order.
pub fn split_tokens(line: &Vec<char>) -> (r: Vec<(usize, usize)>)
    ensures
        same_bounds(r@, pieces(line@, line@.len() as int)),
        forall|i: int| 0 <= i < r@.len() ==> (#[trigger] r@[i]).0 <= r@[i].1 < line@.len(),
        forall|i: int| 0 < i < r@.len() ==> #[trigger] follows(r@, i),
        r@.len() > 0 ==> r@[0].0 == 0 && r@[r@.len() - 1].1 == line@.len() - 1,
        line@.len() > 0 ==> r@.len() > 0,
{
    let mut out: Vec<(usize, usize)> = Vec::new();
    let mut in_string = false;
    let mut previous: u8 = 0;
    let mut i: usize = 0;
    while i < line.len()
        invariant
            i <= line.len(),
            same_bounds(out@, pieces(line@, i as int)),
            in_string == in_string_before(line@, i as int),
            i > 0 ==> previous == class_at(line@, i - 1),
            i > 0 ==> out@.len() > 0 && out@[out@.len() - 1].1 == i - 1,
            i == 0 ==> out@.len() == 0,
            forall|j: int| 0 <= j < out@.len() ==> (#[trigger] out@[j]).0 <= out@[j].1 < i,
            forall|j: int| 0 < j < out@.len() ==> #[trigger] follows(out@, j),
            out@.len() > 0 ==> out@[0].0 == 0,
        decreases line.len() - i,
    {
        let c = line[i];
        let class: u8 = if c == '"' || in_string {
            2
        } else if is_whitespace(c) {
            1
        } else {
            0
        };
        if c == '"' {
            in_string = !in_string;
        }
        let ghost was = out@;
        let ghost before = pieces(line@, i as int);
        let ghost after = pieces(line@, i + 1);
        proof {
            assert(class == class_at(line@, i as int));
        }
        if i > 0 && previous == class {
            let last = out.pop();
            match last {
                Some((first, _)) => {
                    out.push((first, i));
                    proof {
                        assert(after == before.drop_last().push((before.last().0, i as int)));
                        assert(out@ =~= was.drop_last().push((first, i)));
                        assert(first == was[was.len() - 1].0);
                        assert(after.len() == out@.len());
                        assert forall|j: int| 0 <= j < out@.len() implies (#[trigger] out@[j]).0
                            == after[j].0 && out@[j].1 == after[j].1 by {
                            if j < out@.len() - 1 {
                                assert(out@[j] == was[j]);
                                assert(after[j] == before[j]);
                            }
                        }
                        assert forall|j: int| 0 <= j < out@.len() implies (#[trigger] out@[j]).0
                            <= out@[j].1 < i + 1 by {
                            if j < out@.len() - 1 {
                                assert(out@[j] == was[j]);
                            }
                        }
                        assert forall|j: int| 0 < j < out@.len() implies #[trigger] follows(
                            out@,
                            j,
                        ) by {
                            assert(follows(was, j));
                            assert(out@[j - 1] == was[j - 1]);
                            if j < out@.len() - 1 {
                                assert(out@[j] == was[j]);
                            }
                        }
                    }
                },
                None => {},
            }
        } else {
            out.push((i, i));
            proof {
                assert(after == before.push((i as int, i as int)));
                assert(out@ =~= was.push((i, i)));
                assert forall|j: int| 0 <= j < out@.len() implies (#[trigger] out@[j]).0
                    == after[j].0 && out@[j].1 == after[j].1 by {
                    if j < was.len() {
                        assert(out@[j] == was[j]);
                        assert(after[j] == before[j]);
                    }
                }
                assert forall|j: int| 0 <= j < out@.len() implies (#[trigger] out@[j]).0
                    <= out@[j].1 < i + 1 by {
                    if j < was.len() {
                        assert(out@[j] == was[j]);
                    }
                }
                assert forall|j: int| 0 < j < out@.len() implies #[trigger] follows(out@, j) by {
                    assert(out@[j - 1] == was[j - 1]);
                    if j < was.len() {
                        assert(follows(was, j));
                        assert(out@[j] == was[j]);
                    }
                }
            }
        }
        previous = class;
        i += 1;
    }
    out
}

/// A word of the command language.
#[derive(Debug, Clone, Copy, PartialEq, Eq, Structural)]
pub enum Keyword {
    Account,
    Transaction,
    List,
    Create,
    Disable,
    Rename,
    Show,
    Received,
    Paid,
    MovePhys,
    MoveVirt,
    Convert,
    Src,
    Dst,
    DstVirt,
    SrcVirt,
    Into,
    Virtual,
}

/// What can stand at one place of a sentence.
#[derive(Debug, Clone, Copy, PartialEq, Eq, Structural)]
pub enum Slot {
    /// This word and no other.
    Word(Keyword),
    /// `physical` or `virtual`.
    Axis,
    /// Any token; double quotes around it are taken away.
    Text,
    /// The number of an amount.
    Number,
    /// The currency of an amount.
    Currency,
    /// The identifier of an account of either axis.
    AnyAccount,
    /// The identifier of a physical account.
    PhysicalAccount,
    /// The identifier of a virtual account.
    VirtualAccount,
}

/// What a sentence asks the shell to do.
#[derive(Debug, PartialEq, Eq)]
pub enum Instruction {
    /// List all accounts.
    AccountsList,
    /// Create an account of this type and name.
    AccountCreate { typ: AccountType, name: String },
    /// Show an account and its transactions.
    AccountShow { id: AccountId },
    /// Change the description of an account.
    AccountModify(AccountId, Vec<AccountModification>),
    /// Add a transaction of this amount and shape.
    TransactionAdd { amount: Amount, inner: TransactionInner },
}

/// An instruction, as plain values.
pub enum InstructionView {
    AccountsList,
    AccountCreate { typ: AccountType, name: Seq<char> },
    AccountShow { id: AccountId },
    AccountModify(AccountId, Seq<ModificationView>),
    TransactionAdd { amount: Amount, inner: TransactionInnerView },
}

impl View for Instruction {
    type V = InstructionView;

    open spec fn view(&self) -> InstructionView {
        match *self {
            Instruction::AccountsList => InstructionView::AccountsList,
            Instruction::AccountCreate { typ, name } => InstructionView::AccountCreate {
                typ,
                name: name@,
            },
            Instruction::AccountShow { id } => InstructionView::AccountShow { id },
            Instruction::AccountModify(id, changes) => InstructionView::AccountModify(
                id,
                crate::command::modification_views(changes@),
            ),
            Instruction::TransactionAdd { amount, inner } => InstructionView::TransactionAdd {
                amount,
                inner: inner@,
            },
        }
    }
}

/// Something that the shell offers to put at a place of the line.
#[derive(Debug, PartialEq, Eq)]
pub struct Suggestion {
    /// The text to put there.
    pub value: String,
    /// What the text stands for, if that helps.
    pub description: Option<String>,
    /// The part of the line that the text replaces: from the first position
    /// up to, but without, the second.
    pub span: (usize, usize),
}

/// A suggestion, as plain values.
pub struct SuggestionView {
    pub value: Seq<char>,
    pub description: Option<Seq<char>>,
    pub span: (usize, usize),
}

impl View for Suggestion {
    type V = SuggestionView;

    open spec fn view(&self) -> SuggestionView {
        SuggestionView {
            value: self.value@,
            description: match self.description {
                Some(d) => Some(d@),
                None => None,
            },
            span: self.span,
        }
    }
}

/// The suggestions of a list, as plain values.
pub open spec fn suggestion_views(list: Seq<Suggestion>) -> Seq<SuggestionView> {
    list.map_values(|s: Suggestion| s@)
}

/// The suggestions with the given span in place of their own.
pub open spec fn spanned(list: Seq<SuggestionView>, span: (usize, usize)) -> Seq<SuggestionView> {
    list.map_values(|s: SuggestionView| SuggestionView { span, ..s })
}

/// A suggestion of a plain word, not yet placed on the line.
pub open spec fn plain(value: Seq<char>) -> SuggestionView {
    SuggestionView { value, description: None, span: (0, 0) }
}

impl Keyword {
    /// The word as it is typed.
    pub open spec fn text(self) -> Seq<char> {
        match self {
            Keyword::Account => "account"@,
            Keyword::Transaction => "transaction"@,
            Keyword::List => "list"@,
            Keyword::Create => "create"@,
            Keyword::Disable => "disable"@,
            Keyword::Rename => "rename"@,
            Keyword::Show => "show"@,
            Keyword::Received => "received"@,
            Keyword::Paid => "paid"@,
            Keyword::MovePhys => "move-phys"@,
            Keyword::MoveVirt => "move-virt"@,
            Keyword::Convert => "convert"@,
            Keyword::Src => "src"@,
            Keyword::Dst => "dst"@,
            Keyword::DstVirt => "dst-virt"@,
            Keyword::SrcVirt => "src-virt"@,
            Keyword::Into => "into"@,
            Keyword::Virtual => "virtual"@,
        }
    }

    /// The word as it is typed.
    pub fn word(&self) -> (w: &'static str)
        ensures
            w@ == self.text(),
    {
        match self {
            Keyword::Account => "account",
            Keyword::Transaction => "transaction",
            Keyword::List => "list",
            Keyword::Create => "create",
            Keyword::Disable => "disable",
            Keyword::Rename => "rename",
            Keyword::Show => "show",
            Keyword::Received => "received",
            Keyword::Paid => "paid",
            Keyword::MovePhys => "move-phys",
            Keyword::MoveVirt => "move-virt",
            Keyword::Convert => "convert",
            Keyword::Src => "src",
            Keyword::Dst => "dst",
            Keyword::DstVirt => "dst-virt",
            Keyword::SrcVirt => "src-virt",
            Keyword::Into => "into",
            Keyword::Virtual => "virtual",
        }
    }
}

/// Whether a word names an account of the list: it is the text of an
/// identifier, and the first account of the list with that identifier is of
/// the given type, if one is given.
pub open spec fn names_account(
    accounts: Seq<AccountView>,
    word: Seq<char>,
    typ: Option<AccountType>,
) -> bool {
    AccountId::of_text(word) matches Some(id) && first_with(accounts, id) matches Some(a) && (
    typ matches Some(t) ==> a.typ == t)
}

/// What the shell offers for an account: the text of its identifier, and
/// as its description its name and, in brackets, what it holds.
pub open spec fn account_offer(a: AccountView) -> SuggestionView {
    SuggestionView {
        value: a.id.text(),
        description: Some(a.name + " ("@ + sheet_text(a.current) + ")"@),
        span: (0, 0),
    }
}

/// What the shell offers where an account is to be named: the enabled
/// accounts of the list, of the given type if one is given, in the order of
/// the list.
pub open spec fn account_offers(accounts: Seq<AccountView>, typ: Option<AccountType>) -> Seq<
    SuggestionView,
>
    decreases accounts.len(),
{
    if accounts.len() == 0 {
        Seq::empty()
    } else {
        let before = account_offers(accounts.drop_last(), typ);
        let a = accounts.last();
        if a.enabled && (typ matches Some(t) ==> a.typ == t) {
            before.push(account_offer(a))
        } else {
            before
        }
    }
}

/// The text without the double quotes at its beginning.
pub open spec fn without_leading_quotes(s: Seq<char>) -> Seq<char>
    decreases s.len(),
{
    if s.len() > 0 && s.first() == '"' {
        without_leading_quotes(s.drop_first())
    } else {
        s
    }
}

/// The text without the double quotes at its end.
pub open spec fn without_trailing_quotes(s: Seq<char>) -> Seq<char>
    decreases s.len(),
{
    if s.len() > 0 && s.last() == '"' {
        without_trailing_quotes(s.drop_last())
    } else {
        s
    }
}

/// The text without the double quotes at its beginning and at its end.
pub open spec fn unquoted(s: Seq<char>) -> Seq<char> {
    without_trailing_quotes(without_leading_quotes(s))
}

impl Slot {
    /// The type that the axis of the slot asks of an account, if the slot
    /// asks for one.
    pub open spec fn account_type(self) -> Option<AccountType> {
        match self {
            Slot::PhysicalAccount => Some(AccountType::Physical),
            Slot::VirtualAccount => Some(AccountType::Virtual),
            _ => None,
        }
    }

    /// Whether the word can stand at this place.
    pub open spec fn accepts(self, word: Seq<char>, accounts: Seq<AccountView>) -> bool {
        match self {
            Slot::Word(k) => word == k.text(),
            Slot::Axis => AccountType::of_name(word) is Some,
            Slot::Text => true,
            Slot::Number => num_of_text(word) is Some,
            Slot::Currency => Currency::of_text(word) is Some,
            _ => names_account(accounts, word, self.account_type()),
        }
    }

    /// What the shell offers for this place.
    pub open spec fn offers(self, accounts: Seq<AccountView>) -> Seq<SuggestionView> {
        match self {
            Slot::Word(k) => seq![plain(k.text())],
            Slot::Axis => seq![plain("physical"@), plain("virtual"@)],
            Slot::Text => Seq::empty(),
            Slot::Number => Seq::empty(),
            Slot::Currency => seq![plain("EUR"@), plain("GBP"@), plain("USD"@)],
            _ => account_offers(accounts, self.account_type()),
        }
    }

    /// What a token that was accepted at this place is shown as.
    pub open spec fn token_type(self) -> TokenType {
        match self {
            Slot::Word(_) => TokenType::Command,
            Slot::Axis => TokenType::Command,
            Slot::Text => TokenType::String,
            Slot::Number => TokenType::Amount,
            Slot::Currency => TokenType::Amount,
            _ => TokenType::Id,
        }
    }

    /// What a token that was accepted at this place is shown as.
    pub fn shown_as(&self) -> (t: TokenType)
        ensures
            t == self.token_type(),
    {
        match self {
            Slot::Word(_) => TokenType::Command,
            Slot::Axis => TokenType::Command,
            Slot::Text => TokenType::String,
            Slot::Number => TokenType::Amount,
            Slot::Currency => TokenType::Amount,
            _ => TokenType::Id,
        }
    }
}

/// The number of sentences of the command language.
pub open spec fn sentences() -> int {
    10
}

/// The sentences of the command language, place by place.
///
/// Five speak of accounts: `account list`, `account create <axis> <name>`,
/// `account disable <id>`, `account rename <id> <name>` and `account show
/// <id>`. Five add a transaction of an amount: received, paid, moved on
/// the physical or on the virtual axis, or converted into another amount.
pub open spec fn form(f: int) -> Seq<Slot> {
    let amount = seq![Slot::Word(Keyword::Transaction), Slot::Number, Slot::Currency];
    if f == 0 {
        seq![Slot::Word(Keyword::Account), Slot::Word(Keyword::List)]
    } else if f == 1 {
        seq![Slot::Word(Keyword::Account), Slot::Word(Keyword::Create), Slot::Axis, Slot::Text]
    } else if f == 2 {
        seq![Slot::Word(Keyword::Account), Slot::Word(Keyword::Disable), Slot::AnyAccount]
    } else if f == 3 {
        seq![
            Slot::Word(Keyword::Account),
            Slot::Word(Keyword::Rename),
            Slot::AnyAccount,
            Slot::Text,
        ]
    } else if f == 4 {
        seq![Slot::Word(Keyword::Account), Slot::Word(Keyword::Show), Slot::AnyAccount]
    } else if f == 5 {
        amount + seq![
            Slot::Word(Keyword::Received),
            Slot::Word(Keyword::Src),
            Slot::Text,
            Slot::Word(Keyword::Dst),
            Slot::PhysicalAccount,
            Slot::Word(Keyword::DstVirt),
            Slot::VirtualAccount,
        ]
    } else if f == 6 {
        amount + seq![
            Slot::Word(Keyword::Paid),
            Slot::Word(Keyword::Dst),
            Slot::Text,
            Slot::Word(Keyword::Src),
            Slot::PhysicalAccount,
            Slot::Word(Keyword::SrcVirt),
            Slot::VirtualAccount,
        ]
    } else if f == 7 {
        amount + seq![
            Slot::Word(Keyword::MovePhys),
            Slot::Word(Keyword::Dst),
            Slot::PhysicalAccount,
            Slot::Word(Keyword::Src),
            Slot::PhysicalAccount,
        ]
    } else if f == 8 {
        amount + seq![
            Slot::Word(Keyword::MoveVirt),
            Slot::Word(Keyword::Dst),
            Slot::VirtualAccount,
            Slot::Word(Keyword::Src),
            Slot::VirtualAccount,
        ]
    } else if f == 9 {
        amount + seq![
            Slot::Word(Keyword::Convert),
            Slot::Word(Keyword::Into),
            Slot::Number,
            Slot::Currency,
            Slot::Word(Keyword::Account),
            Slot::PhysicalAccount,
            Slot::Word(Keyword::Virtual),
            Slot::VirtualAccount,
        ]
    } else {
        Seq::empty()
    }
}

/// Whether the first `k` words fit the first `k` places of sentence `f`.
pub open spec fn alive(f: int, k: int, words: Seq<Seq<char>>, accounts: Seq<AccountView>) -> bool {
    &&& 0 <= k <= form(f).len()
    &&& k <= words.len()
    &&& forall|j: int| 0 <= j < k ==> (#[trigger] form(f)[j]).accepts(words[j], accounts)
}

/// Whether sentence `f` still fits after `k` words and has a place for the
/// next word.
pub open spec fn open_at(f: int, k: int, words: Seq<Seq<char>>, accounts: Seq<AccountView>) -> bool {
    alive(f, k, words, accounts) && k < form(f).len()
}

/// Whether sentence `f` is the first of those that still fit after `k`
/// words to ask for what it asks at the next place.
pub open spec fn leads(f: int, k: int, words: Seq<Seq<char>>, accounts: Seq<AccountView>) -> bool {
    &&& open_at(f, k, words, accounts)
    &&& forall|g: int|
        0 <= g < f ==> !(#[trigger] open_at(g, k, words, accounts) && form(g)[k] == form(f)[k])
}

/// What the first `n` sentences offer for the place after `k` words: what
/// each sentence that still fits asks for there, each kind of thing once.
pub open spec fn expected_upto(
    n: int,
    k: int,
    words: Seq<Seq<char>>,
    accounts: Seq<AccountView>,
) -> Seq<SuggestionView>
    decreases n,
{
    if n <= 0 {
        Seq::empty()
    } else {
        expected_upto(n - 1, k, words, accounts) + (if leads(n - 1, k, words, accounts) {
            form(n - 1)[k].offers(accounts)
        } else {
            Seq::empty()
        })
    }
}

/// What the shell offers for the place after `k` words.
pub open spec fn expected(k: int, words: Seq<Seq<char>>, accounts: Seq<AccountView>) -> Seq<
    SuggestionView,
> {
    expected_upto(sentences(), k, words, accounts)
}

/// The first of the first `n` sentences that the first `k` words make up
/// in full, if there is one.
pub open spec fn finished_upto(
    n: int,
    k: int,
    words: Seq<Seq<char>>,
    accounts: Seq<AccountView>,
) -> Option<int>
    decreases n,
{
    if n <= 0 {
        None
    } else {
        match finished_upto(n - 1, k, words, accounts) {
            Some(f) => Some(f),
            None => if alive(n - 1, k, words, accounts) && form(n - 1).len() == k {
                Some(n - 1)
            } else {
                None
            },
        }
    }
}

/// The first of the first `n` sentences that fits the first `k` words, if
/// there is one.
pub open spec fn fitting_upto(
    n: int,
    k: int,
    words: Seq<Seq<char>>,
    accounts: Seq<AccountView>,
) -> Option<int>
    decreases n,
{
    if n <= 0 {
        None
    } else {
        match fitting_upto(n - 1, k, words, accounts) {
            Some(f) => Some(f),
            None => if alive(n - 1, k, words, accounts) {
                Some(n - 1)
            } else {
                None
            },
        }
    }
}

/// How far the shell gets with the words of a line.
pub enum Outcome {
    /// The first `used` words make up sentence `form`.
    Done { form: int, used: int },
    /// After `at` words nothing fits: the line ends there, or no sentence
    /// has a place for the next word.
    Stuck { at: int },
}

/// How far the shell gets with the words of a line, given that the first
/// `k` words fit a sentence and make up none.
pub open spec fn outcome_from(k: int, words: Seq<Seq<char>>, accounts: Seq<AccountView>) -> Outcome
    decreases 12 - k,
{
    if k >= 12 {
        Outcome::Stuck { at: k }
    } else if finished_upto(sentences(), k, words, accounts) is Some {
        Outcome::Done { form: finished_upto(sentences(), k, words, accounts)->0, used: k }
    } else if k >= words.len() || fitting_upto(sentences(), k + 1, words, accounts) is None {
        Outcome::Stuck { at: k }
    } else {
        outcome_from(k + 1, words, accounts)
    }
}

/// How far the shell gets with the words of a line.
pub open spec fn outcome(words: Seq<Seq<char>>, accounts: Seq<AccountView>) -> Outcome {
    outcome_from(0, words, accounts)
}

/// The identifier that a word names.
pub open spec fn named<T>(word: Seq<char>) -> Id<T> {
    Id::<T>::of_text(word)->0
}

/// The amount that two words name: its number and its currency.
pub open spec fn amount_of(number: Seq<char>, currency: Seq<char>) -> Amount {
    Amount(num_of_text(number)->0, Currency::of_text(currency)->0)
}

/// What the words of sentence `f` ask the shell to do.
pub open spec fn meaning(f: int, words: Seq<Seq<char>>) -> InstructionView {
    if f == 0 {
        InstructionView::AccountsList
    } else if f == 1 {
        InstructionView::AccountCreate {
            typ: AccountType::of_name(words[2])->0,
            name: unquoted(words[3]),
        }
    } else if f == 2 {
        InstructionView::AccountModify(named(words[2]), seq![ModificationView::Disable])
    } else if f == 3 {
        InstructionView::AccountModify(
            named(words[2]),
            seq![ModificationView::UpdateName(unquoted(words[3]))],
        )
    } else if f == 4 {
        InstructionView::AccountShow { id: named(words[2]) }
    } else {
        InstructionView::TransactionAdd {
            amount: amount_of(words[1], words[2]),
            inner: if f == 5 {
                TransactionInnerView::Received {
                    src: unquoted(words[5]),
                    dst: named(words[7]),
                    dst_virt: named(words[9]),
                }
            } else if f == 6 {
                TransactionInnerView::Paid {
                    dst: unquoted(words[5]),
                    src: named(words[7]),
                    src_virt: named(words[9]),
                }
            } else if f == 7 {
                TransactionInnerView::MovePhys { dst: named(words[5]), src: named(words[7]) }
            } else if f == 8 {
                TransactionInnerView::MoveVirt { dst: named(words[5]), src: named(words[7]) }
            } else {
                TransactionInnerView::Convert {
                    new_amount: amount_of(words[5], words[6]),
                    acc: named(words[8]),
                    acc_virt: named(words[10]),
                }
            },
        }
    }
}

/// What the shell makes of the words of a line: the instruction of the
/// sentence that they make up, or else what it offers for the place at
/// which it got stuck. The offers are for the end of the line, which is at
/// position `end`.
pub open spec fn understood(words: Seq<Seq<char>>, accounts: Seq<AccountView>, end: usize) -> Result<
    InstructionView,
    Seq<SuggestionView>,
> {
    match outcome(words, accounts) {
        Outcome::Done { form, used } => Ok(meaning(form, words)),
        Outcome::Stuck { at } => Err(spanned(expected(at, words, accounts), (end, end))),
    }
}

/// Whether the shell gets as far as looking at word `j`.
pub open spec fn reached(j: int, words: Seq<Seq<char>>, accounts: Seq<AccountView>) -> bool {
    0 <= j < words.len() && match outcome(words, accounts) {
        Outcome::Done { form, used } => j < used,
        Outcome::Stuck { at } => j <= at,
    }
}

/// Whether the shell accepts word `j`.
pub open spec fn taken(j: int, words: Seq<Seq<char>>, accounts: Seq<AccountView>) -> bool {
    0 <= j < words.len() && match outcome(words, accounts) {
        Outcome::Done { form, used } => j < used,
        Outcome::Stuck { at } => j < at,
    }
}

/// What word `j` is shown as: as what it was accepted as, or as invalid if
/// it was not accepted.
pub open spec fn word_type(j: int, words: Seq<Seq<char>>, accounts: Seq<AccountView>) -> TokenType {
    if taken(j, words, accounts) {
        form(fitting_upto(sentences(), j + 1, words, accounts)->0)[j].token_type()
    } else {
        TokenType::Invalid
    }
}

/// What the shell offers in place of word `j`: what it expected there, if
/// it got as far.
pub open spec fn word_offers(j: int, words: Seq<Seq<char>>, accounts: Seq<AccountView>) -> Seq<
    SuggestionView,
> {
    if reached(j, words, accounts) {
        expected(j, words, accounts)
    } else {
        Seq::empty()
    }
}

/// The sentences of the command language, place by place.
pub fn forms() -> (r: Vec<Vec<Slot>>)
    ensures
        r@.len() == sentences(),
        forall|f: int| 0 <= f < sentences() ==> (#[trigger] r@[f])@ == form(f),
{
    let list: Vec<Slot> = vec![Slot::Word(Keyword::Account), Slot::Word(Keyword::List)];
    let create: Vec<Slot> = vec![
        Slot::Word(Keyword::Account),
        Slot::Word(Keyword::Create),
        Slot::Axis,
        Slot::Text,
    ];
    let disable: Vec<Slot> = vec![
        Slot::Word(Keyword::Account),
        Slot::Word(Keyword::Disable),
        Slot::AnyAccount,
    ];
    let rename: Vec<Slot> = vec![
        Slot::Word(Keyword::Account),
        Slot::Word(Keyword::Rename),
        Slot::AnyAccount,
        Slot::Text,
    ];
    let show: Vec<Slot> = vec![
        Slot::Word(Keyword::Account),
        Slot::Word(Keyword::Show),
        Slot::AnyAccount,
    ];
    let received: Vec<Slot> = vec![
        Slot::Word(Keyword::Transaction),
        Slot::Number,
        Slot::Currency,
        Slot::Word(Keyword::Received),
        Slot::Word(Keyword::Src),
        Slot::Text,
        Slot::Word(Keyword::Dst),
        Slot::PhysicalAccount,
        Slot::Word(Keyword::DstVirt),
        Slot::VirtualAccount,
    ];
    let paid: Vec<Slot> = vec![
        Slot::Word(Keyword::Transaction),
        Slot::Number,
        Slot::Currency,
        Slot::Word(Keyword::Paid),
        Slot::Word(Keyword::Dst),
        Slot::Text,
        Slot::Word(Keyword::Src),
        Slot::PhysicalAccount,
        Slot::Word(Keyword::SrcVirt),
        Slot::VirtualAccount,
    ];
    let move_phys: Vec<Slot> = vec![
        Slot::Word(Keyword::Transaction),
        Slot::Number,
        Slot::Currency,
        Slot::Word(Keyword::MovePhys),
        Slot::Word(Keyword::Dst),
        Slot::PhysicalAccount,
        Slot::Word(Keyword::Src),
        Slot::PhysicalAccount,
    ];
    let move_virt: Vec<Slot> = vec![
        Slot::Word(Keyword::Transaction),
        Slot::Number,
        Slot::Currency,
        Slot::Word(Keyword::MoveVirt),
        Slot::Word(Keyword::Dst),
        Slot::VirtualAccount,
        Slot::Word(Keyword::Src),
        Slot::VirtualAccount,
    ];
    let convert: Vec<Slot> = vec![
        Slot::Word(Keyword::Transaction),
        Slot::Number,
        Slot::Currency,
        Slot::Word(Keyword::Convert),
        Slot::Word(Keyword::Into),
        Slot::Number,
        Slot::Currency,
        Slot::Word(Keyword::Account),
        Slot::PhysicalAccount,
        Slot::Word(Keyword::Virtual),
        Slot::VirtualAccount,
    ];
    proof {
        assert(list@ =~= form(0));
        assert(create@ =~= form(1));
        assert(disable@ =~= form(2));
        assert(rename@ =~= form(3));
        assert(show@ =~= form(4));
        assert(received@ =~= form(5));
        assert(paid@ =~= form(6));
        assert(move_phys@ =~= form(7));
        assert(move_virt@ =~= form(8));
        assert(convert@ =~= form(9));
    }
    vec![list, create, disable, rename, show, received, paid, move_phys, move_virt, convert]
}

/// The text without the double quotes at its beginning and at its end.
pub fn unquote(word: &Vec<char>) -> (r: String)
    ensures
        r@ == unquoted(word@),
{
    let n = word.len();
    let mut start: usize = 0;
    proof {
        assert(word@.skip(0) =~= word@);
    }
    while start < n && word[start] == '"'
        invariant
            start <= n,
            n == word@.len(),
            without_leading_quotes(word@) == without_leading_quotes(word@.skip(start as int)),
        decreases n - start,
    {
        proof {
            let rest = word@.skip(start as int);
            assert(rest.first() == word@[start as int]);
            assert(rest.drop_first() =~= word@.skip(start + 1));
        }
        start += 1;
    }
    let ghost middle = word@.skip(start as int);
    proof {
        if start < n {
            assert(middle.first() == word@[start as int]);
        }
        assert(without_leading_quotes(word@) == middle);
        assert(middle.take(middle.len() as int) =~= middle);
    }
    let mut end: usize = n;
    while end > start && word[end - 1] == '"'
        invariant
            start <= end <= n,
            n == word@.len(),
            middle == word@.skip(start as int),
            without_trailing_quotes(middle) == without_trailing_quotes(middle.take(end - start)),
        decreases end - start,
    {
        proof {
            let head = middle.take(end - start);
            assert(head.last() == word@[end - 1]);
            assert(head.drop_last() =~= middle.take(end - start - 1));
        }
        end -= 1;
    }
    proof {
        let head = middle.take(end - start);
        if end > start {
            assert(head.last() == word@[end - 1]);
        }
        assert(without_trailing_quotes(middle) == head);
        assert(head =~= word@.subrange(start as int, end as int));
    }
    let inner = slice_of(word, start, end);
    string_of(&inner)
}

/// The position of the first account of the list with the given
/// identifier, if there is one.
pub fn find_account(accounts: &Vec<Account>, id: AccountId) -> (r: Option<usize>)
    ensures
        r is Some <==> first_with(account_views(accounts@), id) is Some,
        r matches Some(i) ==> i < accounts@.len() && first_with(account_views(accounts@), id)
            == Some(accounts@[i as int]@),
{
    let ghost list = account_views(accounts@);
    let mut i: usize = 0;
    proof {
        assert(list.skip(0) =~= list);
    }
    while i < accounts.len()
        invariant
            i <= accounts.len(),
            list == account_views(accounts@),
            first_with(list, id) == first_with(list.skip(i as int), id),
        decreases accounts.len() - i,
    {
        proof {
            let rest = list.skip(i as int);
            assert(rest.first() == accounts@[i as int]@);
            assert(rest.drop_first() =~= list.skip(i + 1));
        }
        if accounts[i].id == id {
            return Some(i);
        }
        i += 1;
    }
    None
}

/// Whether a word names an account of the list, of the given type if one
/// is given.
pub fn is_account(accounts: &Vec<Account>, word: &Vec<char>, typ: Option<AccountType>) -> (r: bool)
    ensures
        r == names_account(account_views(accounts@), word@, typ),
{
    let text = string_of(word);
    match AccountId::from_str(text.as_str()) {
        Err(_) => false,
        Ok(id) => match find_account(accounts, id) {
            None => false,
            Some(i) => match typ {
                None => true,
                Some(t) => accounts[i].typ == t,
            },
        },
    }
}

/// A suggestion of a plain word, not yet placed on the line.
pub fn suggest_word(word: &str) -> (r: Suggestion)
    ensures
        r@ == plain(word@),
{
    Suggestion { value: crate::text::owned(word), description: None, span: (0, 0) }
}

/// What the shell offers where an account is to be named.
pub fn suggest_accounts(accounts: &Vec<Account>, typ: Option<AccountType>) -> (r: Vec<Suggestion>)
    ensures
        suggestion_views(r@) == account_offers(account_views(accounts@), typ),
{
    let ghost list = account_views(accounts@);
    let mut out: Vec<Suggestion> = Vec::new();
    let mut i: usize = 0;
    proof {
        assert(list.take(0) =~= Seq::<AccountView>::empty());
    }
    while i < accounts.len()
        invariant
            i <= accounts.len(),
            list == account_views(accounts@),
            suggestion_views(out@) == account_offers(list.take(i as int), typ),
        decreases accounts.len() - i,
    {
        let a = &accounts[i];
        proof {
            assert(list.take(i + 1).drop_last() =~= list.take(i as int));
            assert(list.take(i + 1).last() == a@);
        }
        let fits = match typ {
            None => true,
            Some(t) => a.typ == t,
        };
        if a.enabled && fits {
            let mut description = chars_of(a.name.as_str());
            push_str(&mut description, " (");
            let holds = a.current.to_string();
            push_str(&mut description, holds.as_str());
            push_str(&mut description, ")");
            let ghost before = suggestion_views(out@);
            let offer = Suggestion {
                value: a.id.to_string(),
                description: Some(string_of(&description)),
                span: (0, 0),
            };
            proof {
                assert(description@ =~= a@.name + " ("@ + sheet_text(a@.current) + ")"@);
                assert(offer@ == account_offer(a@));
            }
            out.push(offer);
            proof {
                assert(suggestion_views(out@) =~= before.push(account_offer(a@)));
            }
        }
        i += 1;
    }
    proof {
        assert(list.take(i as int) =~= list);
    }
    out
}

impl Slot {
    /// The type that the axis of the slot asks of an account.
    pub fn axis(&self) -> (r: Option<AccountType>)
        ensures
            r == self.account_type(),
    {
        match self {
            Slot::PhysicalAccount => Some(AccountType::Physical),
            Slot::VirtualAccount => Some(AccountType::Virtual),
            _ => None,
        }
    }

    /// Whether the word can stand at this place.
    pub fn fits(&self, word: &Vec<char>, accounts: &Vec<Account>) -> (r: bool)
        ensures
            r == self.accepts(word@, account_views(accounts@)),
    {
        match self {
            Slot::Word(k) => same_chars(word, &chars_of(k.word())),
            Slot::Axis => {
                let text = string_of(word);
                AccountType::from_lowercase(text.as_str()).is_ok()
            },
            Slot::Text => true,
            Slot::Number => Amount::parse_num_chars(word).is_some(),
            Slot::Currency => Currency::from_chars(word).is_ok(),
            _ => is_account(accounts, word, self.axis()),
        }
    }

    /// What the shell offers for this place.
    pub fn suggest(&self, accounts: &Vec<Account>) -> (r: Vec<Suggestion>)
        ensures
            suggestion_views(r@) == self.offers(account_views(accounts@)),
    {
        match self {
            Slot::Word(k) => {
                let r = vec![suggest_word(k.word())];
                assert(suggestion_views(r@) =~= self.offers(account_views(accounts@)));
                r
            },
            Slot::Axis => {
                let r = vec![suggest_word("physical"), suggest_word("virtual")];
                assert(suggestion_views(r@) =~= self.offers(account_views(accounts@)));
                r
            },
            Slot::Text => {
                let r: Vec<Suggestion> = Vec::new();
                assert(suggestion_views(r@) =~= self.offers(account_views(accounts@)));
                r
            },
            Slot::Number => {
                let r: Vec<Suggestion> = Vec::new();
                assert(suggestion_views(r@) =~= self.offers(account_views(accounts@)));
                r
            },
            Slot::Currency => {
                let r = vec![suggest_word("EUR"), suggest_word("GBP"), suggest_word("USD")];
                assert(suggestion_views(r@) =~= self.offers(account_views(accounts@)));
                r
            },
            _ => suggest_accounts(accounts, self.axis()),
        }
    }
}

/// No sentence has more than eleven places.
pub proof fn lemma_form_lengths(f: int)
    ensures
        form(f).len() <= 11,
{
}

/// A sentence that fits some words fits the words before them.
pub proof fn lemma_alive_before(
    f: int,
    k: int,
    j: int,
    words: Seq<Seq<char>>,
    accounts: Seq<AccountView>,
)
    requires
        alive(f, k, words, accounts),
        0 <= j <= k,
    ensures
        alive(f, j, words, accounts),
{
}

/// The identifier that a word names.
fn word_id<T>(word: &Vec<char>) -> (r: Id<T>)
    requires
        AccountId::of_text(word@) is Some,
    ensures
        r == named::<T>(word@),
{
    let text = string_of(word);
    match Id::<T>::from_str(text.as_str()) {
        Ok(id) => id,
        Err(_) => {
            proof {
                assert(false);
            }
            Id::new(0)
        },
    }
}

/// The amount that two words name.
fn word_amount(number: &Vec<char>, currency: &Vec<char>) -> (r: Amount)
    requires
        num_of_text(number@) is Some,
        Currency::of_text(currency@) is Some,
    ensures
        r == amount_of(number@, currency@),
{
    let units = match Amount::parse_num_chars(number) {
        Some(n) => n,
        None => {
            proof {
                assert(false);
            }
            0
        },
    };
    match Currency::from_chars(currency) {
        Ok(c) => Amount(units, c),
        Err(_) => {
            proof {
                assert(false);
            }
            Amount(units, Currency::eur())
        },
    }
}

/// What the words of sentence `f` ask the shell to do.
pub fn build(f: usize, words: &Vec<Vec<char>>, accounts: &Vec<Account>) -> (r: Instruction)
    requires
        f < sentences(),
        alive(f as int, form(f as int).len() as int, views(words@), account_views(accounts@)),
    ensures
        r@ == meaning(f as int, views(words@)),
{
    let ghost w = views(words@);
    let ghost a = account_views(accounts@);
    let ghost slots = form(f as int);
    proof {
        assert(slots.len() <= words@.len());
        assert forall|j: int| 0 <= j < slots.len() implies slots[j].accepts(w[j], a) && w[j]
            == words@[j]@ by {
            assert(form(f as int)[j].accepts(w[j], a));
        }
    }
    if f == 0 {
        Instruction::AccountsList
    } else if f == 1 {
        proof {
            assert(slots[2].accepts(w[2], a));
            assert(w[3] == words@[3]@);
        }
        let text = string_of(&words[2]);
        let typ = match AccountType::from_lowercase(text.as_str()) {
            Ok(t) => t,
            Err(_) => {
                proof {
                    assert(false);
                }
                AccountType::Physical
            },
        };
        Instruction::AccountCreate { typ, name: unquote(&words[3]) }
    } else if f == 2 {
        proof {
            assert(slots[2].accepts(w[2], a));
        }
        let changes = vec![AccountModification::Disable];
        proof {
            assert(crate::command::modification_views(changes@) =~= seq![ModificationView::Disable]);
        }
        Instruction::AccountModify(word_id(&words[2]), changes)
    } else if f == 3 {
        proof {
            assert(slots[2].accepts(w[2], a));
            assert(w[3] == words@[3]@);
        }
        let name = unquote(&words[3]);
        let changes = vec![AccountModification::UpdateName(name)];
        proof {
            assert(crate::command::modification_views(changes@) =~= seq![
                ModificationView::UpdateName(unquoted(w[3])),
            ]);
        }
        Instruction::AccountModify(word_id(&words[2]), changes)
    } else if f == 4 {
        proof {
            assert(slots[2].accepts(w[2], a));
        }
        Instruction::AccountShow { id: word_id(&words[2]) }
    } else {
        proof {
            assert(slots[1].accepts(w[1], a));
            assert(slots[2].accepts(w[2], a));
            assert(slots[5].accepts(w[5], a));
            assert(slots[7].accepts(w[7], a));
        }
        let amount = word_amount(&words[1], &words[2]);
        let inner = if f == 5 {
            proof {
                assert(slots[9].accepts(w[9], a));
            }
            TransactionInner::Received {
                src: unquote(&words[5]),
                dst: word_id(&words[7]),
                dst_virt: word_id(&words[9]),
            }
        } else if f == 6 {
            proof {
                assert(slots[9].accepts(w[9], a));
            }
            TransactionInner::Paid {
                dst: unquote(&words[5]),
                src: word_id(&words[7]),
                src_virt: word_id(&words[9]),
            }
        } else if f == 7 {
            TransactionInner::MovePhys { dst: word_id(&words[5]), src: word_id(&words[7]) }
        } else if f == 8 {
            TransactionInner::MoveVirt { dst: word_id(&words[5]), src: word_id(&words[7]) }
        } else {
            proof {
                assert(slots[6].accepts(w[6], a));
                assert(slots[8].accepts(w[8], a));
                assert(slots[10].accepts(w[10], a));
            }
            TransactionInner::Convert {
                new_amount: word_amount(&words[5], &words[6]),
                acc: word_id(&words[8]),
                acc_virt: word_id(&words[10]),
            }
        };
        Instruction::TransactionAdd { amount, inner }
    }
}

/// A copy of a list of suggestions.
pub fn clone_suggestions(list: &Vec<Suggestion>) -> (r: Vec<Suggestion>)
    ensures
        suggestion_views(r@) == suggestion_views(list@),
{
    let mut out: Vec<Suggestion> = Vec::new();
    let mut i: usize = 0;
    while i < list.len()
        invariant
            i <= list.len(),
            out@.len() == i,
            forall|j: int| 0 <= j < i ==> (#[trigger] out@[j])@ == list@[j]@,
        decreases list.len() - i,
    {
        let s = &list[i];
        let description = match &s.description {
            Some(d) => Some(d.clone()),
            None => None,
        };
        out.push(Suggestion { value: s.value.clone(), description, span: s.span });
        i += 1;
    }
    assert(suggestion_views(out@) =~= suggestion_views(list@));
    out
}

/// The suggestions with the given span in place of their own.
pub fn set_span(list: Vec<Suggestion>, span: (usize, usize)) -> (r: Vec<Suggestion>)
    ensures
        suggestion_views(r@) == spanned(suggestion_views(list@), span),
{
    let mut out: Vec<Suggestion> = Vec::new();
    let mut i: usize = 0;
    while i < list.len()
        invariant
            i <= list.len(),
            out@.len() == i,
            forall|j: int|
                0 <= j < i ==> (#[trigger] out@[j])@ == (SuggestionView { span, ..list@[j]@ }),
        decreases list.len() - i,
    {
        let s = &list[i];
        let description = match &s.description {
            Some(d) => Some(d.clone()),
            None => None,
        };
        out.push(Suggestion { value: s.value.clone(), description, span });
        i += 1;
    }
    assert(suggestion_views(out@) =~= spanned(suggestion_views(list@), span));
    out
}

/// Whether the flags tell, for each sentence, whether it fits the first
/// `k` words.
pub open spec fn tells(
    live: Seq<bool>,
    k: int,
    words: Seq<Seq<char>>,
    accounts: Seq<AccountView>,
) -> bool {
    live.len() == sentences() && forall|f: int|
        0 <= f < sentences() ==> #[trigger] live[f] == alive(f, k, words, accounts)
}

/// Whether the table holds the sentences of the command language.
pub open spec fn is_grammar(table: Seq<Vec<Slot>>) -> bool {
    table.len() == sentences() && forall|f: int|
        0 <= f < sentences() ==> (#[trigger] table[f])@ == form(f)
}

/// The first sentence that the first `k` words make up in full, if there
/// is one.
fn finished_form(
    table: &Vec<Vec<Slot>>,
    live: &Vec<bool>,
    k: usize,
    words: &Vec<Vec<char>>,
    accounts: &Vec<Account>,
) -> (r: Option<usize>)
    requires
        is_grammar(table@),
        tells(live@, k as int, views(words@), account_views(accounts@)),
    ensures
        r is Some <==> finished_upto(
            sentences(),
            k as int,
            views(words@),
            account_views(accounts@),
        ) is Some,
        r matches Some(f) ==> f < sentences() && finished_upto(
            sentences(),
            k as int,
            views(words@),
            account_views(accounts@),
        ) == Some(f as int) && alive(f as int, k as int, views(words@), account_views(accounts@))
            && form(f as int).len() == k,
{
    let ghost w = views(words@);
    let ghost a = account_views(accounts@);
    let mut found: Option<usize> = None;
    let mut f: usize = 0;
    while f < 10
        invariant
            f <= 10,
            is_grammar(table@),
            tells(live@, k as int, w, a),
            found is Some <==> finished_upto(f as int, k as int, w, a) is Some,
            found matches Some(g) ==> g < f && finished_upto(f as int, k as int, w, a) == Some(
                g as int,
            ) && alive(g as int, k as int, w, a) && form(g as int).len() == k,
        decreases 10 - f,
    {
        proof {
            assert(table@[f as int]@ == form(f as int));
        }
        if found.is_none() && live[f] && table[f].len() == k {
            found = Some(f);
        }
        f += 1;
    }
    found
}

/// What the shell offers for the place after `k` words.
fn expected_offers(
    table: &Vec<Vec<Slot>>,
    live: &Vec<bool>,
    k: usize,
    words: &Vec<Vec<char>>,
    accounts: &Vec<Account>,
) -> (r: Vec<Suggestion>)
    requires
        is_grammar(table@),
        tells(live@, k as int, views(words@), account_views(accounts@)),
    ensures
        suggestion_views(r@) == expected(k as int, views(words@), account_views(accounts@)),
{
    let ghost w = views(words@);
    let ghost a = account_views(accounts@);
    let mut out: Vec<Suggestion> = Vec::new();
    let mut f: usize = 0;
    proof {
        assert(suggestion_views(out@) =~= expected_upto(0, k as int, w, a));
    }
    while f < 10
        invariant
            f <= 10,
            is_grammar(table@),
            tells(live@, k as int, w, a),
            w == views(words@),
            a == account_views(accounts@),
            suggestion_views(out@) == expected_upto(f as int, k as int, w, a),
        decreases 10 - f,
    {
        proof {
            assert(table@[f as int]@ == form(f as int));
        }
        let mut leads_here = live[f] && k < table[f].len();
        let ghost open_here = leads_here;
        proof {
            assert(open_here == open_at(f as int, k as int, w, a));
        }
        if leads_here {
            let slot = table[f][k];
            let mut g: usize = 0;
            while g < f
                invariant
                    g <= f < 10,
                    is_grammar(table@),
                    tells(live@, k as int, w, a),
                    k < table@[f as int]@.len(),
                    slot == form(f as int)[k as int],
                    leads_here == (forall|h: int|
                        0 <= h < g ==> !(#[trigger] open_at(h, k as int, w, a) && form(h)[k as int]
                            == slot)),
                decreases f - g,
            {
                proof {
                    assert(table@[g as int]@ == form(g as int));
                }
                if live[g] && k < table[g].len() && table[g][k] == slot {
                    leads_here = false;
                    proof {
                        assert(open_at(g as int, k as int, w, a) && form(g as int)[k as int]
                            == slot);
                    }
                }
                g += 1;
            }
        }
        proof {
            if open_here {
                assert(leads_here == (forall|h: int|
                    0 <= h < f ==> !(#[trigger] open_at(h, k as int, w, a) && form(h)[k as int]
                        == form(f as int)[k as int])));
            }
            assert(leads_here == leads(f as int, k as int, w, a));
        }
        if leads_here {
            proof {
                assert(table@[f as int]@[k as int] == form(f as int)[k as int]);
            }
            let mut more = table[f][k].suggest(accounts);
            let ghost before = suggestion_views(out@);
            let ghost added = suggestion_views(more@);
            let ghost was = out@;
            let ghost extra = more@;
            out.append(&mut more);
            proof {
                assert(out@ =~= was + extra);
                assert forall|i: int| 0 <= i < out@.len() implies suggestion_views(out@)[i] == (
                before + added)[i] by {
                    if i < was.len() {
                        assert(out@[i] == was[i]);
                    } else {
                        assert(out@[i] == extra[i - was.len()]);
                    }
                }
                assert(suggestion_views(out@) =~= before + added);
                assert(added == form(f as int)[k as int].offers(a));
                assert(suggestion_views(out@) == expected_upto(f + 1, k as int, w, a));
            }
        } else {
            proof {
                assert(suggestion_views(out@) + Seq::<SuggestionView>::empty() =~= suggestion_views(
                    out@,
                ));
                assert(suggestion_views(out@) == expected_upto(f + 1, k as int, w, a));
            }
        }
        f += 1;
    }
    out
}

/// Which sentences fit one word more, and the first of them.
fn advance(
    table: &Vec<Vec<Slot>>,
    live: &Vec<bool>,
    k: usize,
    words: &Vec<Vec<char>>,
    accounts: &Vec<Account>,
) -> (r: (Vec<bool>, Option<usize>))
    requires
        is_grammar(table@),
        tells(live@, k as int, views(words@), account_views(accounts@)),
        k < words@.len(),
    ensures
        tells(r.0@, k + 1, views(words@), account_views(accounts@)),
        r.1 is Some <==> fitting_upto(
            sentences(),
            k + 1,
            views(words@),
            account_views(accounts@),
        ) is Some,
        r.1 matches Some(f) ==> f < sentences() && fitting_upto(
            sentences(),
            k + 1,
            views(words@),
            account_views(accounts@),
        ) == Some(f as int) && alive(f as int, k + 1, views(words@), account_views(accounts@)),
{
    let ghost w = views(words@);
    let ghost a = account_views(accounts@);
    let mut next: Vec<bool> = Vec::new();
    let mut first: Option<usize> = None;
    let mut f: usize = 0;
    while f < 10
        invariant
            f <= 10,
            is_grammar(table@),
            tells(live@, k as int, w, a),
            w == views(words@),
            a == account_views(accounts@),
            k < words@.len(),
            next@.len() == f,
            forall|g: int| 0 <= g < f ==> #[trigger] next@[g] == alive(g, k + 1, w, a),
            first is Some <==> fitting_upto(f as int, k + 1, w, a) is Some,
            first matches Some(g) ==> g < f && fitting_upto(f as int, k + 1, w, a) == Some(
                g as int,
            ) && alive(g as int, k + 1, w, a),
        decreases 10 - f,
    {
        proof {
            assert(table@[f as int]@ == form(f as int));
            assert(w[k as int] == words@[k as int]@);
        }
        let fits = live[f] && k < table[f].len() && table[f][k].fits(&words[k], accounts);
        proof {
            if fits {
                assert forall|j: int| 0 <= j < k + 1 implies (#[trigger] form(f as int)[j]).accepts(
                    w[j],
                    a,
                ) by {
                    if j < k {
                        assert(alive(f as int, k as int, w, a));
                    }
                }
            } else if alive(f as int, k + 1, w, a) {
                lemma_alive_before(f as int, k + 1, k as int, w, a);
                assert(form(f as int)[k as int].accepts(w[k as int], a));
            }
            assert(fits == alive(f as int, k + 1, w, a));
        }
        next.push(fits);
        if fits && first.is_none() {
            first = Some(f);
        }
        f += 1;
    }
    (next, first)
}

/// What the shell has made of one word of the line.
#[derive(Debug, PartialEq, Eq)]
pub struct Mark {
    /// What the word is shown as.
    pub typ: TokenType,
    /// What the shell offers in its place.
    pub offers: Vec<Suggestion>,
}

/// Whether the marks say of each word what the shell has made of it.
pub open spec fn marks_fit(
    marks: Seq<Mark>,
    words: Seq<Seq<char>>,
    accounts: Seq<AccountView>,
) -> bool {
    marks.len() == words.len() && forall|j: int|
        0 <= j < marks.len() ==> (#[trigger] marks[j]).typ == word_type(j, words, accounts)
            && suggestion_views(marks[j].offers@) == word_offers(j, words, accounts)
}

/// What the shell makes of the words of a line: the instruction of the
/// sentence that they make up, or else what it offers for the place at
/// which it got stuck, and for each word what it is shown as and what is
/// offered in its place.
pub fn understand(words: &Vec<Vec<char>>, accounts: &Vec<Account>) -> (r: (
    Result<Instruction, Vec<Suggestion>>,
    Vec<Mark>,
))
    ensures
        match outcome(views(words@), account_views(accounts@)) {
            Outcome::Done { form, used } => r.0 is Ok && r.0->Ok_0@ == meaning(form, views(words@)),
            Outcome::Stuck { at } => r.0 is Err && suggestion_views(r.0->Err_0@) == expected(
                at,
                views(words@),
                account_views(accounts@),
            ),
        },
        marks_fit(r.1@, views(words@), account_views(accounts@)),
{
    let ghost w = views(words@);
    let ghost a = account_views(accounts@);
    let table = forms();
    let mut live: Vec<bool> = Vec::new();
    let mut f: usize = 0;
    while f < 10
        invariant
            f <= 10,
            live@.len() == f,
            forall|g: int| 0 <= g < f ==> #[trigger] live@[g] == true,
        decreases 10 - f,
    {
        live.push(true);
        f += 1;
    }
    let mut marks: Vec<Mark> = Vec::new();
    let mut j: usize = 0;
    while j < words.len()
        invariant
            j <= words.len(),
            marks@.len() == j,
            forall|i: int|
                0 <= i < j ==> (#[trigger] marks@[i]).typ == TokenType::Invalid
                    && marks@[i].offers@.len() == 0,
        decreases words.len() - j,
    {
        marks.push(Mark { typ: TokenType::Invalid, offers: Vec::new() });
        j += 1;
    }
    let mut k: usize = 0;
    loop
        invariant
            k <= 11,
            k <= words@.len(),
            w == views(words@),
            a == account_views(accounts@),
            is_grammar(table@),
            tells(live@, k as int, w, a),
            outcome(w, a) == outcome_from(k as int, w, a),
            marks@.len() == words@.len(),
            forall|i: int|
                0 <= i < k ==> (#[trigger] marks@[i]).typ == form(
                    fitting_upto(sentences(), i + 1, w, a)->0,
                )[i].token_type() && suggestion_views(marks@[i].offers@) == expected(i, w, a),
            forall|i: int|
                k <= i < marks@.len() ==> (#[trigger] marks@[i]).typ == TokenType::Invalid
                    && marks@[i].offers@.len() == 0,
        decreases 12 - k,
    {
        match finished_form(&table, &live, k, words, accounts) {
            Some(found) => {
                let instruction = build(found, words, accounts);
                proof {
                    assert forall|i: int| 0 <= i < marks@.len() implies (#[trigger] marks@[i]).typ
                        == word_type(i, w, a) && suggestion_views(marks@[i].offers@) == word_offers(
                        i,
                        w,
                        a,
                    ) by {
                        if i >= k {
                            assert(suggestion_views(marks@[i].offers@) =~= Seq::<
                                SuggestionView,
                            >::empty());
                        }
                    }
                }
                return (Ok(instruction), marks);
            },
            None => {},
        }
        let offers = expected_offers(&table, &live, k, words, accounts);
        if k >= words.len() {
            proof {
                assert forall|i: int| 0 <= i < marks@.len() implies (#[trigger] marks@[i]).typ
                    == word_type(i, w, a) && suggestion_views(marks@[i].offers@) == word_offers(
                    i,
                    w,
                    a,
                ) by {}
            }
            return (Err(offers), marks);
        }
        let (next, first) = advance(&table, &live, k, words, accounts);
        match first {
            None => {
                marks.set(k, Mark { typ: TokenType::Invalid, offers: clone_suggestions(&offers) });
                proof {
                    assert forall|i: int| 0 <= i < marks@.len() implies (#[trigger] marks@[i]).typ
                        == word_type(i, w, a) && suggestion_views(marks@[i].offers@) == word_offers(
                        i,
                        w,
                        a,
                    ) by {
                        if i > k {
                            assert(suggestion_views(marks@[i].offers@) =~= Seq::<
                                SuggestionView,
                            >::empty());
                        }
                    }
                }
                return (Err(offers), marks);
            },
            Some(fitting) => {
                proof {
                    assert(table@[fitting as int]@ == form(fitting as int));
                    lemma_form_lengths(fitting as int);
                }
                let typ = table[fitting][k].shown_as();
                marks.set(k, Mark { typ, offers: offers });
                live = next;
                k += 1;
            },
        }
    }
}

/// A token of the line.
#[derive(Debug, PartialEq, Eq)]
pub struct Token {
    /// The positions of its first and its last character.
    pub bounds: (usize, usize),
    /// Its text.
    pub str: String,
    /// What it was understood as.
    pub typ: TokenType,
    /// What the shell offers in its place.
    pub completions: Vec<Suggestion>,
}

/// A token, as plain values.
pub struct TokenView {
    pub bounds: (usize, usize),
    pub str: Seq<char>,
    pub typ: TokenType,
    pub completions: Seq<SuggestionView>,
}

impl View for Token {
    type V = TokenView;

    open spec fn view(&self) -> TokenView {
        TokenView {
            bounds: self.bounds,
            str: self.str@,
            typ: self.typ,
            completions: suggestion_views(self.completions@),
        }
    }
}

/// The tokens of a list, as plain values.
pub open spec fn token_views(tokens: Seq<Token>) -> Seq<TokenView> {
    tokens.map_values(|t: Token| t@)
}

/// The bounds of the tokens of a line.
pub open spec fn bounds_of(line: Seq<char>) -> Seq<(int, int)> {
    pieces(line, line.len() as int)
}

/// The text of token `i` of a line.
pub open spec fn token_text(line: Seq<char>, i: int) -> Seq<char> {
    line.subrange(bounds_of(line)[i].0, bounds_of(line)[i].1 + 1)
}

/// The words among the first `n` tokens of a line: the texts of those
/// tokens that are not white space.
pub open spec fn words_upto(line: Seq<char>, n: int) -> Seq<Seq<char>>
    decreases n,
{
    if n <= 0 {
        Seq::empty()
    } else if all_white(token_text(line, n - 1)) {
        words_upto(line, n - 1)
    } else {
        words_upto(line, n - 1).push(token_text(line, n - 1))
    }
}

/// The words of a line.
pub open spec fn words_of(line: Seq<char>) -> Seq<Seq<char>> {
    words_upto(line, bounds_of(line).len() as int)
}

/// Token `i` of a line, as the shell shows it: white space as such, and a
/// word as what the shell has made of it, with what the shell offers in
/// place of the word.
pub open spec fn token_at(line: Seq<char>, accounts: Seq<AccountView>, i: int) -> TokenView {
    let first = bounds_of(line)[i].0;
    let last = bounds_of(line)[i].1;
    let text = token_text(line, i);
    let word = words_upto(line, i).len() as int;
    if all_white(text) {
        TokenView {
            bounds: (first as usize, last as usize),
            str: text,
            typ: TokenType::Whitespace,
            completions: Seq::empty(),
        }
    } else {
        TokenView {
            bounds: (first as usize, last as usize),
            str: text,
            typ: word_type(word, words_of(line), accounts),
            completions: spanned(
                word_offers(word, words_of(line), accounts),
                (first as usize, (last + 1) as usize),
            ),
        }
    }
}

/// Whether the tokens are those of the line, as the shell shows them.
pub open spec fn shows(tokens: Seq<TokenView>, line: Seq<char>, accounts: Seq<AccountView>) -> bool {
    tokens.len() == bounds_of(line).len() && forall|i: int|
        0 <= i < tokens.len() ==> #[trigger] tokens[i] == token_at(line, accounts, i)
}

/// What the shell makes of a line: the instruction of the sentence that
/// its words make up, or else what it offers at the end of the line.
pub open spec fn sense(line: Seq<char>, accounts: Seq<AccountView>) -> Result<
    InstructionView,
    Seq<SuggestionView>,
> {
    understood(words_of(line), accounts, line.len() as usize)
}

/// Whether every character is white space.
pub fn is_blank(text: &Vec<char>) -> (r: bool)
    ensures
        r == all_white(text@),
{
    let mut i: usize = 0;
    while i < text.len()
        invariant
            i <= text.len(),
            forall|j: int| 0 <= j < i ==> is_white(#[trigger] text@[j]),
        decreases text.len() - i,
    {
        if !is_whitespace(text[i]) {
            return false;
        }
        i += 1;
    }
    true
}

/// Whether what the shell made of a line is what `sense` says.
pub open spec fn makes_sense(
    result: Result<Instruction, Vec<Suggestion>>,
    line: Seq<char>,
    accounts: Seq<AccountView>,
) -> bool {
    match sense(line, accounts) {
        Ok(instruction) => result is Ok && result->Ok_0@ == instruction,
        Err(offers) => result is Err && suggestion_views(result->Err_0@) == offers,
    }
}

/// Reads a line of the shell: its tokens, as they are to be shown, and
/// the instruction that it gives, or else what can follow at its end.
pub fn parse(input: &str, accounts: &Vec<Account>) -> (r: (
    Vec<Token>,
    Result<Instruction, Vec<Suggestion>>,
))
    ensures
        shows(token_views(r.0@), input@, account_views(accounts@)),
        makes_sense(r.1, input@, account_views(accounts@)),
{
    let line = chars_of(input);
    let ghost a = account_views(accounts@);
    let bounds = split_tokens(&line);
    let ghost all = bounds_of(line@);
    let mut texts: Vec<Vec<char>> = Vec::new();
    let mut blanks: Vec<bool> = Vec::new();
    let mut ranks: Vec<usize> = Vec::new();
    let mut words: Vec<Vec<char>> = Vec::new();
    let mut i: usize = 0;
    while i < bounds.len()
        invariant
            i <= bounds.len(),
            line@ == input@,
            all == bounds_of(line@),
            same_bounds(bounds@, all),
            forall|j: int| 0 <= j < bounds@.len() ==> (#[trigger] bounds@[j]).0 <= bounds@[j].1
                < line@.len(),
            texts@.len() == i,
            blanks@.len() == i,
            ranks@.len() == i,
            views(words@) == words_upto(line@, i as int),
            forall|j: int| 0 <= j < i ==> (#[trigger] texts@[j])@ == token_text(line@, j),
            forall|j: int| 0 <= j < i ==> #[trigger] blanks@[j] == all_white(token_text(line@, j)),
            forall|j: int| 0 <= j < i ==> #[trigger] ranks@[j] == words_upto(line@, j).len(),
        decreases bounds.len() - i,
    {
        let (first, last) = bounds[i];
        proof {
            assert(bounds@[i as int].0 <= bounds@[i as int].1 < line@.len());
        }
        let text = slice_of(&line, first, last + 1);
        let blank = is_blank(&text);
        ranks.push(words.len());
        blanks.push(blank);
        if !blank {
            let ghost before = views(words@);
            words.push(slice_of(&line, first, last + 1));
            proof {
                assert(views(words@) =~= before.push(text@));
            }
        }
        texts.push(text);
        i += 1;
    }
    let (result, marks) = understand(&words, accounts);
    let ghost w = views(words@);
    let end = line.len();
    let mut tokens: Vec<Token> = Vec::new();
    let mut t: usize = 0;
    while t < bounds.len()
        invariant
            t <= bounds.len(),
            line@ == input@,
            a == account_views(accounts@),
            all == bounds_of(line@),
            same_bounds(bounds@, all),
            forall|j: int| 0 <= j < bounds@.len() ==> (#[trigger] bounds@[j]).0 <= bounds@[j].1
                < line@.len(),
            texts@.len() == bounds@.len(),
            blanks@.len() == bounds@.len(),
            ranks@.len() == bounds@.len(),
            w == words_of(line@),
            forall|j: int| 0 <= j < texts@.len() ==> (#[trigger] texts@[j])@ == token_text(line@, j),
            forall|j: int|
                0 <= j < blanks@.len() ==> #[trigger] blanks@[j] == all_white(
                    token_text(line@, j),
                ),
            forall|j: int|
                0 <= j < ranks@.len() ==> #[trigger] ranks@[j] == words_upto(line@, j).len(),
            marks_fit(marks@, w, a),
            tokens@.len() == t,
            end == line@.len(),
            forall|j: int| 0 <= j < t ==> (#[trigger] tokens@[j])@ == token_at(line@, a, j),
        decreases bounds.len() - t,
    {
        let (first, last) = bounds[t];
        proof {
            assert(bounds@[t as int].0 <= bounds@[t as int].1 < line@.len());
            assert(texts@[t as int]@ == token_text(line@, t as int));
            assert(blanks@[t as int] == all_white(token_text(line@, t as int)));
            assert(ranks@[t as int] == words_upto(line@, t as int).len());
        }
        let text = string_of(&texts[t]);
        let token = if blanks[t] {
            let token = Token {
                bounds: (first, last),
                str: text,
                typ: TokenType::Whitespace,
                completions: Vec::new(),
            };
            proof {
                assert(suggestion_views(token.completions@) =~= Seq::<SuggestionView>::empty());
            }
            token
        } else {
            let rank = ranks[t];
            proof {
                lemma_rank_in_range(line@, t as int);
                assert(rank < marks@.len());
            }
            let mark = &marks[rank];
            Token {
                bounds: (first, last),
                str: text,
                typ: mark.typ,
                completions: set_span(clone_suggestions(&mark.offers), (first, last + 1)),
            }
        };
        tokens.push(token);
        t += 1;
    }
    let result = match result {
        Ok(instruction) => Ok(instruction),
        Err(offers) => Err(set_span(offers, (end, end))),
    };
    (tokens, result)
}

/// A token that is not white space is counted among the words.
pub proof fn lemma_rank_in_range(line: Seq<char>, i: int)
    requires
        0 <= i < bounds_of(line).len(),
        !all_white(token_text(line, i)),
    ensures
        words_upto(line, i).len() < words_of(line).len(),
{
    lemma_words_grow(line, i + 1, bounds_of(line).len() as int);
}

/// More tokens hold no fewer words.
pub proof fn lemma_words_grow(line: Seq<char>, m: int, n: int)
    requires
        0 <= m <= n,
    ensures
        words_upto(line, m).len() <= words_upto(line, n).len(),
    decreases n - m,
{
    if m < n {
        lemma_words_grow(line, m, n - 1);
    }
}

/// Whether the shell understands a line as an instruction.
pub fn validate(input: &str, accounts: &Vec<Account>) -> (r: bool)
    ensures
        r == sense(input@, account_views(accounts@)) is Ok,
{
    parse(input, accounts).1.is_ok()
}

/// The tokens of a line, as the shell shows them.
pub open spec fn shown(line: Seq<char>, accounts: Seq<AccountView>) -> Seq<TokenView> {
    Seq::new(bounds_of(line).len(), |i: int| token_at(line, accounts, i))
}

/// Whether the token lies under the cursor: the cursor stands on it or
/// right behind it.
pub open spec fn covers(token: TokenView, pos: usize) -> bool {
    token.bounds.0 <= pos && token.bounds.1 + 1 >= pos
}

/// The first token under the cursor, if there is one.
pub open spec fn token_under(tokens: Seq<TokenView>, pos: usize) -> Option<TokenView>
    decreases tokens.len(),
{
    if tokens.len() == 0 {
        None
    } else if covers(tokens.first(), pos) {
        Some(tokens.first())
    } else {
        token_under(tokens.drop_first(), pos)
    }
}

/// Whether `value` begins with `prefix`.
pub open spec fn begins_with(value: Seq<char>, prefix: Seq<char>) -> bool {
    prefix.len() <= value.len() && value.take(prefix.len() as int) == prefix
}

/// Those suggestions of the list whose text begins with `prefix`.
pub open spec fn beginning_with(list: Seq<SuggestionView>, prefix: Seq<char>) -> Seq<SuggestionView>
    decreases list.len(),
{
    if list.len() == 0 {
        Seq::empty()
    } else if begins_with(list.last().value, prefix) {
        beginning_with(list.drop_last(), prefix).push(list.last())
    } else {
        beginning_with(list.drop_last(), prefix)
    }
}

/// What the shell offers at the cursor. On or right behind a word it offers
/// what it expected in place of the word, as far as that begins with the
/// word. Elsewhere it offers what can follow at the end of the line, if the
/// line is no sentence yet.
pub open spec fn completions(
    tokens: Seq<TokenView>,
    sense: Result<InstructionView, Seq<SuggestionView>>,
    pos: usize,
) -> Seq<SuggestionView> {
    let under = token_under(tokens, pos);
    if under is Some && under->0.typ != TokenType::Whitespace {
        beginning_with(under->0.completions, under->0.str)
    } else {
        match sense {
            Err(offers) => offers,
            Ok(_) => Seq::empty(),
        }
    }
}

/// Whether `value` begins with `prefix`.
pub fn has_prefix(value: &Vec<char>, prefix: &Vec<char>) -> (r: bool)
    ensures
        r == begins_with(value@, prefix@),
{
    if prefix.len() > value.len() {
        return false;
    }
    let mut i: usize = 0;
    while i < prefix.len()
        invariant
            i <= prefix.len() <= value.len(),
            forall|j: int| 0 <= j < i ==> value@[j] == prefix@[j],
        decreases prefix.len() - i,
    {
        if value[i] != prefix[i] {
            proof {
                assert(value@.take(prefix@.len() as int)[i as int] != prefix@[i as int]);
            }
            return false;
        }
        i += 1;
    }
    proof {
        assert(value@.take(prefix@.len() as int) =~= prefix@);
    }
    true
}

/// What the shell offers at the cursor, which stands before the character
/// at position `pos`.
pub fn complete(input: &str, pos: usize, accounts: &Vec<Account>) -> (r: Vec<Suggestion>)
    ensures
        suggestion_views(r@) == completions(
            shown(input@, account_views(accounts@)),
            sense(input@, account_views(accounts@)),
            pos,
        ),
{
    let ghost a = account_views(accounts@);
    let (tokens, result) = parse(input, accounts);
    let ghost all = token_views(tokens@);
    proof {
        assert(all =~= shown(input@, a));
    }
    let mut i: usize = 0;
    proof {
        assert(all.skip(0) =~= all);
    }
    while i < tokens.len()
        invariant
            i <= tokens.len(),
            all == token_views(tokens@),
            all == shown(input@, a),
            a == account_views(accounts@),
            makes_sense(result, input@, a),
            token_under(all, pos) == token_under(all.skip(i as int), pos),
        decreases tokens.len() - i,
    {
        proof {
            let rest = all.skip(i as int);
            assert(rest.first() == tokens@[i as int]@);
            assert(rest.drop_first() =~= all.skip(i + 1));
        }
        let token = &tokens[i];
        if lies_under(token.bounds, pos) {
            if token.typ != TokenType::Whitespace {
                let prefix = chars_of(token.str.as_str());
                let ghost list = suggestion_views(token.completions@);
                let mut out: Vec<Suggestion> = Vec::new();
                let mut j: usize = 0;
                proof {
                    assert(list.take(0) =~= Seq::<SuggestionView>::empty());
                }
                while j < token.completions.len()
                    invariant
                        j <= token.completions.len(),
                        list == suggestion_views(token.completions@),
                        prefix@ == token.str@,
                        suggestion_views(out@) == beginning_with(list.take(j as int), prefix@),
                    decreases token.completions.len() - j,
                {
                    let s = &token.completions[j];
                    proof {
                        assert(list.take(j + 1).drop_last() =~= list.take(j as int));
                        assert(list.take(j + 1).last() == s@);
                    }
                    let value = chars_of(s.value.as_str());
                    if has_prefix(&value, &prefix) {
                        let description = match &s.description {
                            Some(d) => Some(d.clone()),
                            None => None,
                        };
                        let ghost before = suggestion_views(out@);
                        out.push(Suggestion { value: s.value.clone(), description, span: s.span });
                        proof {
                            assert(suggestion_views(out@) =~= before.push(s@));
                        }
                    }
                    j += 1;
                }
                proof {
                    assert(list.take(j as int) =~= list);
                }
                return out;
            } else {
                return match result {
                    Err(offers) => offers,
                    Ok(_) => {
                        let none: Vec<Suggestion> = Vec::new();
                        assert(suggestion_views(none@) =~= Seq::<SuggestionView>::empty());
                        none
                    },
                };
            }
        }
        i += 1;
    }
    match result {
        Err(offers) => offers,
        Ok(_) => {
            let none: Vec<Suggestion> = Vec::new();
            assert(suggestion_views(none@) =~= Seq::<SuggestionView>::empty());
            none
        },
    }
}

/// Whether a token with the given bounds lies under the cursor.
fn lies_under(bounds: (usize, usize), pos: usize) -> (r: bool)
    ensures
        r == (bounds.0 <= pos && bounds.1 + 1 >= pos),
{
    bounds.0 <= pos && (pos == 0 || bounds.1 >= pos - 1)
}

/// The lines of a text, as `str::lines` gives them: without their line
/// endings.
pub uninterp spec fn lines_of(text: Seq<char>) -> Seq<Seq<char>>;

/// `str::lines` of the standard library, each line as a string of its own:
/// the lines that `lines_of` names, in their order.
#[verifier::external_body]
fn text_lines(text: &str) -> (r: Vec<String>)
    ensures
        crate::report::cell_views(r@) == lines_of(text@),
{
    text.lines().map(|line| line.to_owned()).collect()
}

/// The lines that do not begin with `#`, one after the other with nothing
/// between them.
pub open spec fn kept_notes(lines: Seq<Seq<char>>) -> Seq<char>
    decreases lines.len(),
{
    if lines.len() == 0 {
        Seq::empty()
    } else if lines.last().len() > 0 && lines.last()[0] == '#' {
        kept_notes(lines.drop_last())
    } else {
        kept_notes(lines.drop_last()) + lines.last()
    }
}

/// The notes that the lines of an edited text leave: lines that begin with
/// `#` are comments and are left out, and the others are put one after the
/// other.
pub fn keep_notes(lines: &Vec<String>) -> (notes: String)
    ensures
        notes@ == kept_notes(crate::report::cell_views(lines@)),
{
    let ghost all = crate::report::cell_views(lines@);
    let mut out: Vec<char> = Vec::new();
    let mut i: usize = 0;
    proof {
        assert(all.take(0) =~= Seq::<Seq<char>>::empty());
    }
    while i < lines.len()
        invariant
            i <= lines.len(),
            all == crate::report::cell_views(lines@),
            out@ == kept_notes(all.take(i as int)),
        decreases lines.len() - i,
    {
        let line = chars_of(lines[i].as_str());
        proof {
            assert(all.take(i + 1).drop_last() =~= all.take(i as int));
            assert(all.take(i + 1).last() == line@);
        }
        if !(line.len() > 0 && line[0] == '#') {
            push_all(&mut out, &line);
        }
        i += 1;
    }
    proof {
        assert(all.take(i as int) =~= all);
    }
    string_of(&out)
}

/// The notes that an edited text leaves.
pub fn notes_of(edited: &str) -> (notes: String)
    ensures
        notes@ == kept_notes(lines_of(edited@)),
{
    let lines = text_lines(edited);
    keep_notes(&lines)
}

impl InstructionView {
    /// Whether the instruction creates something, for which the shell asks
    /// for notes and makes a fresh identifier.
    pub open spec fn creates(self) -> bool {
        self is AccountCreate || self is TransactionAdd
    }

    /// The command that carries out the instruction, if it takes one: an
    /// account or a transaction is created under the fresh identifier
    /// `fresh` and with the given notes, an account is changed as told, and
    /// to list or to show takes no command.
    pub open spec fn command(self, fresh: u128, notes: Seq<char>) -> Option<CommandView> {
        match self {
            InstructionView::AccountsList => None,
            InstructionView::AccountShow { id } => None,
            InstructionView::AccountCreate { typ, name } => Some(
                CommandView::CreateAccount(
                    AccountView {
                        id: Id(fresh, std::marker::PhantomData),
                        name,
                        notes,
                        typ,
                        current: Map::empty(),
                        enabled: true,
                    },
                ),
            ),
            InstructionView::AccountModify(id, changes) => Some(
                CommandView::UpdateAccount(id, changes),
            ),
            InstructionView::TransactionAdd { amount, inner } => Some(
                CommandView::AddTransaction(
                    TransactionView {
                        id: Id(fresh, std::marker::PhantomData),
                        notes,
                        amount,
                        inner,
                    },
                ),
            ),
        }
    }
}

impl Instruction {
    /// Whether the instruction creates something, for which the shell asks
    /// for notes and makes a fresh identifier.
    pub fn creates(&self) -> (r: bool)
        ensures
            r == self@.creates(),
    {
        match self {
            Instruction::AccountCreate { .. } => true,
            Instruction::TransactionAdd { .. } => true,
            _ => false,
        }
    }

    /// The command that carries out the instruction, if it takes one.
    pub fn command(self, fresh: u128, notes: String) -> (r: Option<Command>)
        ensures
            match self@.command(fresh, notes@) {
                Some(c) => r is Some && r->0@ == c,
                None => r is None,
            },
    {
        match self {
            Instruction::AccountsList => None,
            Instruction::AccountShow { .. } => None,
            Instruction::AccountCreate { typ, name } => Some(
                Command::CreateAccount(Account::new(Id::new(fresh), typ, name, notes)),
            ),
            Instruction::AccountModify(id, changes) => Some(Command::UpdateAccount(id, changes)),
            Instruction::TransactionAdd { amount, inner } => Some(
                Command::AddTransaction(Transaction { id: Id::new(fresh), notes, amount, inner }),
            ),
        }
    }
}

} // verus!
