//! Writing a ledger out as the commands that build it again, and putting a
//! command line together from its words.

use std::collections::BTreeMap;
use vstd::prelude::*;
use vstd::std_specs::iter::IteratorSpec;

use crate::account::{Account, AccountView};
use crate::amounts::Amounts;
use crate::command::{Command, CommandView};
use crate::ledger::{account_views, transaction_views};
use crate::text::{chars_of, join, joined, push_all, string_of, views};
use crate::transaction::{Transaction, TransactionView};

verus! {

/// The account as it was when it was created: holding nothing.
pub open spec fn opened(account: AccountView) -> AccountView {
    AccountView { current: Map::empty(), ..account }
}

/// The transactions of the given lists, each filed under the value of its
/// identifier. Of two transactions with one identifier the later one stays.
pub open spec fn gathered(lists: Seq<Seq<TransactionView>>) -> Map<u128, TransactionView>
    decreases lists.len(),
{
    if lists.len() == 0 {
        Map::empty()
    } else {
        gathered_into(gathered(lists.drop_last()), lists.last())
    }
}

/// `found` with the transactions of one more list filed in it.
pub open spec fn gathered_into(
    found: Map<u128, TransactionView>,
    list: Seq<TransactionView>,
) -> Map<u128, TransactionView>
    decreases list.len(),
{
    if list.len() == 0 {
        found
    } else {
        gathered_into(found, list.drop_last()).insert(list.last().id.0, list.last())
    }
}

/// The lists of transactions, as plain values.
pub open spec fn history_views(histories: Seq<Vec<Transaction>>) -> Seq<Seq<TransactionView>> {
    histories.map_values(|h: Vec<Transaction>| transaction_views(h@))
}

/// The commands, as plain values.
pub open spec fn command_views(commands: Seq<Command>) -> Seq<CommandView> {
    commands.map_values(|c: Command| c@)
}

/// Whether `commands` writes out the given accounts and transactions: first
/// each account is created, in the given order and holding nothing, then
/// each transaction is added, in the order of the identifiers.
pub open spec fn exports(
    commands: Seq<CommandView>,
    accounts: Seq<AccountView>,
    found: Map<u128, TransactionView>,
) -> bool {
    &&& commands.len() >= accounts.len()
    &&& forall|i: int|
        0 <= i < accounts.len() ==> #[trigger] commands[i] == CommandView::CreateAccount(
            opened(accounts[i]),
        )
    &&& forall|i: int|
        accounts.len() <= i < commands.len() ==> (#[trigger] commands[i]) is AddTransaction
            && found.contains_key(commands[i]->AddTransaction_0.id.0)
            && found[commands[i]->AddTransaction_0.id.0] == commands[i]->AddTransaction_0
    &&& forall|i: int, j: int|
        accounts.len() <= i < j < commands.len() ==> (#[trigger] commands[i])->AddTransaction_0.id.0
            < (#[trigger] commands[j])->AddTransaction_0.id.0
    &&& forall|k: u128| #[trigger]
        found.contains_key(k) ==> exists|i: int|
            accounts.len() <= i < commands.len() && (#[trigger] commands[i])->AddTransaction_0.id.0
                == k
}

/// The views of the transactions that a map files.
spec fn filed_views(map: Map<u128, Transaction>) -> Map<u128, TransactionView> {
    map.map_values(|t: Transaction| t@)
}

/// The commands that build the given accounts and their transactions
/// again. `histories` holds the transactions of each account; a
/// transaction that stands in several of them is written out once.
pub fn export_commands(accounts: &Vec<Account>, histories: &Vec<Vec<Transaction>>) -> (r: Vec<
    Command,
>)
    ensures
        exports(command_views(r@), account_views(accounts@), gathered(history_views(histories@))),
{
    let ghost lists = history_views(histories@);
    let mut found: BTreeMap<u128, Transaction> = BTreeMap::new();
    let mut h: usize = 0;
    proof {
        assert(lists.take(0) =~= Seq::<Seq<TransactionView>>::empty());
        assert(filed_views(found@) =~= gathered(lists.take(0)));
    }
    while h < histories.len()
        invariant
            h <= histories.len(),
            lists == history_views(histories@),
            filed_views(found@) == gathered(lists.take(h as int)),
        decreases histories.len() - h,
    {
        let history = &histories[h];
        let ghost list = transaction_views(history@);
        let ghost before = filed_views(found@);
        let mut j: usize = 0;
        proof {
            assert(lists.take(h + 1).drop_last() =~= lists.take(h as int));
            assert(lists.take(h + 1).last() == list);
            assert(list.take(0) =~= Seq::<TransactionView>::empty());
        }
        while j < history.len()
            invariant
                j <= history.len(),
                list == transaction_views(history@),
                filed_views(found@) == gathered_into(before, list.take(j as int)),
            decreases history.len() - j,
        {
            let t = history[j].clone();
            proof {
                assert(list.take(j + 1).drop_last() =~= list.take(j as int));
                assert(list.take(j + 1).last() == t@);
            }
            let ghost was = filed_views(found@);
            found.insert(t.id.0, t);
            proof {
                assert(filed_views(found@) =~= was.insert(t.id.0, t@));
            }
            j += 1;
        }
        proof {
            assert(list.take(j as int) =~= list);
        }
        h += 1;
    }
    proof {
        assert(lists.take(h as int) =~= lists);
    }
    let mut out: Vec<Command> = Vec::new();
    let mut i: usize = 0;
    while i < accounts.len()
        invariant
            i <= accounts.len(),
            out@.len() == i,
            forall|x: int|
                0 <= x < i ==> (#[trigger] out@[x])@ == CommandView::CreateAccount(
                    opened(accounts@[x]@),
                ),
        decreases accounts.len() - i,
    {
        let a = &accounts[i];
        let fresh = Account {
            id: a.id,
            name: a.name.clone(),
            notes: a.notes.clone(),
            typ: a.typ,
            current: Amounts::new(),
            enabled: a.enabled,
        };
        out.push(Command::CreateAccount(fresh));
        i += 1;
    }
    let ghost n = accounts@.len() as int;
    let entries = found.iter();
    let ghost all = entries.remaining();
    let ghost keys = all.map_values(|kv: (&u128, &Transaction)| *kv.0);
    proof {
        crate::order::lemma_rising_u128(keys);
        assert forall|x: int, y: int| 0 <= x < y < all.len() implies *(#[trigger] all[x]).0 < *(
        #[trigger] all[y]).0 by {
            assert(keys[x] == *all[x].0);
            assert(keys[y] == *all[y].0);
        }
    }
    for kv in it: entries
        invariant
            it.seq() == all,
            n == accounts@.len(),
            out@.len() == n + it.index(),
            forall|x: int|
                0 <= x < n ==> (#[trigger] out@[x])@ == CommandView::CreateAccount(
                    opened(accounts@[x]@),
                ),
            forall|x: int|
                0 <= x < it.index() ==> (#[trigger] out@[n + x])@ == CommandView::AddTransaction(
                    (*all[x].1)@,
                ),
    {
        out.push(Command::AddTransaction(kv.1.clone()));
    }
    proof {
        let commands = command_views(out@);
        let filed = gathered(lists);
        assert forall|x: int| n <= x < commands.len() implies (#[trigger] commands[x]) is AddTransaction
            && filed.contains_key(commands[x]->AddTransaction_0.id.0)
            && filed[commands[x]->AddTransaction_0.id.0] == commands[x]->AddTransaction_0 by {
            let y = x - n;
            assert(out@[n + y]@ == CommandView::AddTransaction((*all[y].1)@));
            assert(found@.contains_key(*all[y].0));
            assert(found@[*all[y].0] == *all[y].1);
            assert(filed_views(found@).contains_key(*all[y].0));
            lemma_gathered_keys(lists, *all[y].0);
        }
        assert forall|x: int, y: int| n <= x < y < commands.len() implies (
        #[trigger] commands[x])->AddTransaction_0.id.0 < (
        #[trigger] commands[y])->AddTransaction_0.id.0 by {
            let a = x - n;
            let b = y - n;
            assert(out@[n + a]@ == CommandView::AddTransaction((*all[a].1)@));
            assert(out@[n + b]@ == CommandView::AddTransaction((*all[b].1)@));
            assert(found@.contains_key(*all[a].0));
            assert(found@.contains_key(*all[b].0));
            assert(filed_views(found@).contains_key(*all[a].0));
            assert(filed_views(found@).contains_key(*all[b].0));
            lemma_gathered_keys(lists, *all[a].0);
            lemma_gathered_keys(lists, *all[b].0);
            assert(*all[a].0 < *all[b].0);
        }
        assert forall|k: u128| #[trigger] filed.contains_key(k) implies exists|x: int|
            n <= x < commands.len() && (#[trigger] commands[x])->AddTransaction_0.id.0 == k by {
            assert(found@.contains_key(k));
            assert(all.contains((&k, &found@[k])));
            let y = choose|y: int| 0 <= y < all.len() && all[y] == (&k, &found@[k]);
            assert(out@[n + y]@ == CommandView::AddTransaction((*all[y].1)@));
            lemma_gathered_keys(lists, k);
            assert(commands[n + y]->AddTransaction_0.id.0 == k);
        }
        assert forall|x: int| 0 <= x < n implies #[trigger] commands[x]
            == CommandView::CreateAccount(opened(account_views(accounts@)[x])) by {
            assert(out@[x]@ == CommandView::CreateAccount(opened(accounts@[x]@)));
        }
    }
    out
}

/// Every transaction is filed under the value of its own identifier.
proof fn lemma_gathered_keys(lists: Seq<Seq<TransactionView>>, k: u128)
    requires
        gathered(lists).contains_key(k),
    ensures
        gathered(lists)[k].id.0 == k,
    decreases lists.len(),
{
    if lists.len() > 0 {
        lemma_gathered_into_keys(gathered(lists.drop_last()), lists.last(), k);
        if gathered(lists.drop_last()).contains_key(k) {
            lemma_gathered_keys(lists.drop_last(), k);
        }
    }
}

/// Filing one more list keeps what was filed before, or files a
/// transaction under the value of its own identifier.
proof fn lemma_gathered_into_keys(
    found: Map<u128, TransactionView>,
    list: Seq<TransactionView>,
    k: u128,
)
    requires
        gathered_into(found, list).contains_key(k),
    ensures
        gathered_into(found, list)[k].id.0 == k || (found.contains_key(k) && gathered_into(
            found,
            list,
        )[k] == found[k]),
    decreases list.len(),
{
    if list.len() > 0 {
        if list.last().id.0 != k {
            lemma_gathered_into_keys(found, list.drop_last(), k);
        }
    }
}

/// A word of a command line as it is written on the line: within double
/// quotes if it holds a space.
pub open spec fn quoted(word: Seq<char>) -> Seq<char> {
    if word.contains(' ') {
        seq!['"'] + word + seq!['"']
    } else {
        word
    }
}

/// The words of a list, as plain values.
pub open spec fn word_views(words: Seq<String>) -> Seq<Seq<char>> {
    words.map_values(|w: String| w@)
}

/// The command line made of the given words: each word that holds a space
/// is put within double quotes, and the words are joined by single spaces.
pub fn command_line(words: &Vec<String>) -> (line: String)
    ensures
        line@ == joined(word_views(words@).map_values(|w: Seq<char>| quoted(w)), " "@),
{
    let ghost all = word_views(words@);
    let mut parts: Vec<Vec<char>> = Vec::new();
    let mut i: usize = 0;
    while i < words.len()
        invariant
            i <= words.len(),
            all == word_views(words@),
            views(parts@) == all.take(i as int).map_values(|w: Seq<char>| quoted(w)),
        decreases words.len() - i,
    {
        let word = chars_of(words[i].as_str());
        let ghost before = views(parts@);
        let mut part: Vec<char> = Vec::new();
        match crate::text::find_char(&word, ' ') {
            Some(_) => {
                part.push('"');
                push_all(&mut part, &word);
                part.push('"');
                assert(part@ =~= quoted(word@));
            },
            None => {
                push_all(&mut part, &word);
                assert(part@ =~= quoted(word@));
            },
        }
        parts.push(part);
        i += 1;
        proof {
            assert(views(parts@) =~= before.push(quoted(word@)));
            assert(all.take(i as int) =~= all.take(i - 1).push(word@));
            assert(views(parts@) =~= all.take(i as int).map_values(|w: Seq<char>| quoted(w)));
        }
    }
    proof {
        assert(all.take(i as int) =~= all);
    }
    let line = join(parts, " ");
    string_of(&line)
}

} // verus!
